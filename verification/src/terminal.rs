//! The terminal prompt: which command runs, and what is shown of it.

use crate::chars::whitespace;
use crate::editor::next_char_boundary;
use crate::model::TerminalState;
use crate::strings::{
    concat, occurs_at, same_text, signed_decimal, starts_with, to_signed_decimal, trim, trimmed,
};
use crate::terminal_input::{sanitize_terminal_output, sanitized};
use crate::text::{
    byte_len, char_index, from_range, is_boundary, offset, push_char, push_text, text_len,
    to_chars,
};
use vstd::prelude::*;

verus! {

/// What the terminal prompt asks for.
#[derive(Debug)]
pub enum TerminalRequest {
    Nothing,
    /// Run a command in a shell.
    Shell(String),
    /// Make a directory the current one.
    ChangeDirectory(String),
}

/// A [`TerminalRequest`] by its texts.
pub enum RequestView {
    Nothing,
    Shell(Seq<char>),
    ChangeDirectory(Seq<char>),
}

impl View for TerminalRequest {
    type V = RequestView;

    open spec fn view(&self) -> RequestView {
        match *self {
            TerminalRequest::Nothing => RequestView::Nothing,
            TerminalRequest::Shell(s) => RequestView::Shell(s@),
            TerminalRequest::ChangeDirectory(s) => RequestView::ChangeDirectory(s@),
        }
    }
}

/// Whether a command changes the directory.
pub open spec fn is_cd(command: Seq<char>) -> bool {
    command == "cd"@ || occurs_at(command, "cd "@, 0)
}

/// What a typed command asks for.
pub open spec fn requested(typed: Seq<char>) -> RequestView {
    let command = trimmed(typed);
    if command.len() == 0 || command == "clear"@ {
        RequestView::Nothing
    } else if is_cd(command) {
        RequestView::ChangeDirectory(trimmed(command.skip(2)))
    } else {
        RequestView::Shell(command)
    }
}

/// What becomes of the prompt when a typed command is confirmed.
pub open spec fn terminal_confirmed(before: TerminalState, after: TerminalState) -> bool {
    let command = trimmed(before.command@);
    if command == "clear"@ {
        &&& after == TerminalState {
            command: after.command,
            cursor: 0,
            output: after.output,
            ..before
        }
        &&& after.command@.len() == 0
        &&& after.output@.len() == 0
    } else if is_cd(command) {
        &&& after == TerminalState { command: after.command, cursor: 0, ..before }
        &&& after.command@.len() == 0
    } else {
        after == before
    }
}

/// Confirms the typed command: `clear` and the input of `cd` are dealt with
/// here, anything else is to be run first.
pub fn run_terminal_command(terminal: &mut TerminalState) -> (r: TerminalRequest)
    ensures
        r@ == requested(old(terminal).command@),
        terminal_confirmed(*old(terminal), *final(terminal)),
{
    let command = trim(terminal.command.as_str());
    proof {
        reveal_strlit("clear");
        reveal_strlit("cd");
        reveal_strlit("cd ");
    }
    if command.as_str().is_empty() {
        return TerminalRequest::Nothing;
    }
    if same_text(command.as_str(), "clear") {
        assert(!is_cd(command@)) by {
            assert(command@[0] == 'c' && command@[1] == 'l');
            if occurs_at(command@, "cd "@, 0) {
                assert(command@.subrange(0, 3)[1] == 'd');
            }
        }
        terminal.output = String::new();
        terminal.command = String::new();
        terminal.cursor = 0;
        return TerminalRequest::Nothing;
    }
    if same_text(command.as_str(), "cd") || starts_with(command.as_str(), "cd ") {
        let chars = to_chars(command.as_str());
        let rest = from_range(&chars, 2, chars.len());
        assert(chars@.subrange(2, chars@.len() as int) =~= chars@.skip(2));
        terminal.command = String::new();
        terminal.cursor = 0;
        return TerminalRequest::ChangeDirectory(trim(rest.as_str()));
    }
    TerminalRequest::Shell(command)
}

/// Most bytes of output that are kept.
pub const MAX_SCROLLBACK_BYTES: usize = 65536;

/// First character of `s`, from `k` on, behind byte `b`.
pub open spec fn first_behind(s: Seq<char>, k: int, b: int) -> int
    decreases s.len() - k,
{
    if k < s.len() && offset(s, k) <= b {
        first_behind(s, k + 1, b)
    } else {
        k
    }
}

/// The end of a text that is kept as scrollback.
pub open spec fn scrollback(s: Seq<char>) -> Seq<char> {
    if byte_len(s) > MAX_SCROLLBACK_BYTES {
        s.skip(first_behind(s, 0, byte_len(s) - MAX_SCROLLBACK_BYTES))
    } else {
        s
    }
}

/// Output with one more command below it.
pub open spec fn with_entry(shown: Seq<char>, command: Seq<char>, output: Seq<char>) -> Seq<char> {
    let start = if shown.len() == 0 {
        shown
    } else {
        shown.push('\n')
    };
    scrollback((start + "$ "@ + command).push('\n') + sanitized(output))
}

proof fn lemma_first_behind(s: Seq<char>, k: int, b: int)
    requires
        0 <= k <= s.len(),
    ensures
        k <= first_behind(s, k, b) <= s.len(),
        first_behind(s, k, b) < s.len() ==> offset(s, first_behind(s, k, b)) > b,
        forall|j: int| k <= j < first_behind(s, k, b) ==> offset(s, j) <= b,
    decreases s.len() - k,
{
    if k < s.len() && offset(s, k) <= b {
        lemma_first_behind(s, k + 1, b);
    }
}

/// The scrollback never grows beyond its limit, and is the end of what was
/// shown.
pub proof fn lemma_scrollback_bounded(s: Seq<char>)
    ensures
        byte_len(scrollback(s)) <= MAX_SCROLLBACK_BYTES,
        scrollback(s).is_suffix_of(s),
{
    if byte_len(s) > MAX_SCROLLBACK_BYTES {
        let b = byte_len(s) - MAX_SCROLLBACK_BYTES;
        let k = first_behind(s, 0, b);
        lemma_first_behind(s, 0, b);
        assert(s =~= s.take(k) + s.skip(k));
        crate::text::lemma_byte_len_add(s.take(k), s.skip(k));
        crate::text::lemma_offset_ends(s);
        assert(offset(s, k) == byte_len(s.take(k)));
        assert(s.skip(k) =~= s.subrange(s.len() - s.skip(k).len(), s.len() as int));
    } else {
        assert(s =~= s.subrange(s.len() - s.len(), s.len() as int));
    }
}

/// Shows a command and its output below what is shown already.
pub fn append_terminal_output(terminal: &mut TerminalState, command: &str, output: &str)
    ensures
        *final(terminal) == (TerminalState { output: final(terminal).output, ..*old(terminal) }),
        final(terminal).output@ == with_entry(old(terminal).output@, command@, output@),
{
    let ghost shown = terminal.output@;
    let mut text = terminal.output.clone();
    if !text.as_str().is_empty() {
        push_char(&mut text, '\n');
    }
    push_text(&mut text, "$ ");
    push_text(&mut text, command);
    push_char(&mut text, '\n');
    let clean = sanitize_terminal_output(output);
    push_text(&mut text, clean.as_str());
    let len: usize = text_len(text.as_str());
    if len > MAX_SCROLLBACK_BYTES {
        let b: usize = len - MAX_SCROLLBACK_BYTES;
        let start: usize = next_char_boundary(text.as_str(), b);
        let chars = to_chars(text.as_str());
        let mut kept = text;
        match char_index(&chars, start) {
            Some(k) => {
                proof {
                    lemma_first_behind(chars@, 0, b as int);
                    let j = first_behind(chars@, 0, b as int);
                    crate::text::lemma_offset_ends(chars@);
                    crate::text::lemma_index_at(chars@, j);
                    if j < k {
                        crate::text::lemma_offset_mono(chars@, j, k as int);
                        if j == chars@.len() {
                        } else {
                            assert(is_boundary(chars@, offset(chars@, j)));
                        }
                    }
                    if k < j {
                        assert(offset(chars@, k as int) <= b);
                    }
                    assert(chars@.subrange(k as int, chars@.len() as int) =~= chars@.skip(k as int));
                }
                kept = from_range(&chars, k, chars.len());
            },
            None => {},
        }
        terminal.output = kept;
    } else {
        terminal.output = text;
    }
}

/// How a command of the shell ended.
#[derive(Debug)]
pub enum ShellResult {
    /// What it wrote, and its exit code where no signal ended it.
    Finished { stdout: String, stderr: String, code: Option<i32> },
    /// Why it could not be started.
    Failed(String),
}

/// Everything a command wrote, its errors on lines of their own.
pub open spec fn all_output(stdout: Seq<char>, stderr: Seq<char>) -> Seq<char> {
    let both = if stderr.len() == 0 {
        stdout
    } else if stdout.len() > 0 && stdout.last() != '\n' {
        stdout.push('\n') + stderr
    } else {
        stdout + stderr
    };
    if both.len() == 0 {
        "Command completed with no output."@
    } else {
        both
    }
}

/// What is shown of a command that was run.
pub open spec fn shell_report(result: ShellResult) -> Seq<char> {
    match result {
        ShellResult::Finished { stdout, stderr, code } => {
            let status = match code {
                Some(c) => signed_decimal(c as int),
                None => "signal"@,
            };
            "[exit "@ + status + "]\n"@ + all_output(stdout@, stderr@)
        },
        ShellResult::Failed(error) => "Could not run command: "@ + error@,
    }
}

/// What is shown of a command that was run.
pub fn format_shell_result(result: &ShellResult) -> (r: String)
    ensures
        r@ == shell_report(*result),
{
    match result {
        ShellResult::Finished { stdout, stderr, code } => {
            let status: String = match code {
                Some(c) => to_signed_decimal(*c),
                None => "signal".to_owned(),
            };
            let mut text = stdout.clone();
            if !stderr.as_str().is_empty() {
                let chars = to_chars(text.as_str());
                if chars.len() > 0 && chars[chars.len() - 1] != '\n' {
                    push_char(&mut text, '\n');
                }
                push_text(&mut text, stderr.as_str());
            }
            if text.as_str().is_empty() {
                text = "Command completed with no output.".to_owned();
            }
            let mut r = concat("[exit ", status.as_str());
            push_text(&mut r, "]\n");
            push_text(&mut r, text.as_str());
            r
        },
        ShellResult::Failed(error) => concat("Could not run command: ", error.as_str()),
    }
}

/// Shows how a command of the shell ended and empties the input.
pub fn finish_shell_command(terminal: &mut TerminalState, command: &str, result: &ShellResult)
    ensures
        *final(terminal) == (TerminalState {
            command: final(terminal).command,
            cursor: 0,
            output: final(terminal).output,
            ..*old(terminal)
        }),
        final(terminal).command@.len() == 0,
        final(terminal).output@ == with_entry(
            old(terminal).output@,
            command@,
            shell_report(*result),
        ),
{
    let report = format_shell_result(result);
    append_terminal_output(terminal, command, report.as_str());
    terminal.command = String::new();
    terminal.cursor = 0;
}

/// What the file system says of a directory to change to.
#[derive(Debug)]
pub enum DirectoryResult {
    /// The directory, in its canonical form.
    Entered(String),
    NotDirectory,
    Failed(String),
}

/// What is shown of a change of directory.
pub open spec fn directory_report(result: DirectoryResult) -> Seq<char> {
    match result {
        DirectoryResult::Entered(directory) => directory@,
        DirectoryResult::NotDirectory => "Not a directory."@,
        DirectoryResult::Failed(error) => "cd: "@ + error@,
    }
}

/// Makes a directory the current one, and shows what came of it.
pub fn change_terminal_directory(
    terminal: &mut TerminalState,
    path: &str,
    result: DirectoryResult,
)
    ensures
        final(terminal).output@ == with_entry(
            old(terminal).output@,
            "cd "@ + path@,
            directory_report(result),
        ),
        *final(terminal) == (TerminalState {
            output: final(terminal).output,
            directory: match result {
                DirectoryResult::Entered(directory) => Some(directory),
                _ => old(terminal).directory,
            },
            ..*old(terminal)
        }),
{
    let command = concat("cd ", path);
    match result {
        DirectoryResult::Entered(directory) => {
            append_terminal_output(terminal, command.as_str(), directory.as_str());
            terminal.directory = Some(directory);
        },
        DirectoryResult::NotDirectory => {
            append_terminal_output(terminal, command.as_str(), "Not a directory.");
        },
        DirectoryResult::Failed(error) => {
            let message = concat("cd: ", error.as_str());
            append_terminal_output(terminal, command.as_str(), message.as_str());
        },
    }
}

// ---------------------------------------------------------------------------
// What holds of all commands
// ---------------------------------------------------------------------------

/// What is typed behind `cd` is the folder to go to. A word that merely starts with `cd`
/// is another command, and is run as it was typed.
pub proof fn lemma_cd_goes_to_a_folder(rest: Seq<char>)
    ensures
        ({
            let typed = seq!['c', 'd'] + rest;
            let last = if rest.len() > 0 {
                rest.last()
            } else {
                'd'
            };
            &&& rest.len() == 0 ==> requested(typed) == RequestView::ChangeDirectory(Seq::empty())
            &&& rest.len() > 0 && rest[0] == ' ' && !whitespace(last) ==> requested(typed)
                == RequestView::ChangeDirectory(trimmed(rest))
            &&& rest.len() > 0 && !whitespace(rest[0]) && !whitespace(last) ==> requested(typed)
                == RequestView::Shell(typed)
        }),
{
    reveal_strlit("cd");
    reveal_strlit("cd ");
    reveal_strlit("clear");
    let typed = seq!['c', 'd'] + rest;
    assert(typed[0] == 'c' && typed[1] == 'd');
    assert(typed.skip(2) =~= rest);
    if rest.len() == 0 {
        assert(typed =~= "cd"@);
        crate::strings::lemma_trimmed_same(typed);
        crate::strings::lemma_trimmed_same(rest);
        assert(rest =~= Seq::<char>::empty());
    } else if !whitespace(rest.last()) {
        assert(typed.last() == rest.last());
        crate::strings::lemma_trimmed_same(typed);
        assert(typed[2] == rest[0]);
        if typed == "clear"@ {
            assert(typed[1] == 'l');
        }
        if rest[0] == ' ' {
            assert(typed.subrange(0, 3) =~= "cd "@);
        } else if occurs_at(typed, "cd "@, 0) {
            assert(typed.subrange(0, 3)[2] == typed[2]);
        }
    }
}

/// Any other command is run by the shell, without the white space around it. Nothing
/// typed, and `clear`, ask for nothing.
pub proof fn lemma_other_commands_are_run(typed: Seq<char>)
    ensures
        ({
            let command = trimmed(typed);
            let n = command.len();
            let is_cd = n >= 2 && command[0] == 'c' && command[1] == 'd' && (n == 2 || command[2]
                == ' ');
            let is_clear = n == 5 && command[0] == 'c' && command[1] == 'l' && command[2] == 'e'
                && command[3] == 'a' && command[4] == 'r';
            &&& n == 0 || is_clear ==> requested(typed) is Nothing
            &&& n > 0 && !is_clear && !is_cd ==> requested(typed) == RequestView::Shell(command)
        }),
{
    reveal_strlit("cd");
    reveal_strlit("cd ");
    reveal_strlit("clear");
    let command = trimmed(typed);
    let n = command.len();
    if n == 5 && command[0] == 'c' && command[1] == 'l' && command[2] == 'e' && command[3] == 'a'
        && command[4] == 'r' {
        assert(command =~= "clear"@);
    }
    if occurs_at(command, "cd "@, 0) {
        let w = command.subrange(0, 3);
        assert(w[0] == command[0] && w[1] == command[1] && w[2] == command[2]);
    }
}

/// Output that fits is kept whole, and of longer output as much of the end as fits but
/// for a part of a character.
pub proof fn lemma_scrollback_keeps_what_fits(s: Seq<char>)
    ensures
        byte_len(s) <= MAX_SCROLLBACK_BYTES ==> scrollback(s) == s,
        byte_len(s) > MAX_SCROLLBACK_BYTES ==> byte_len(scrollback(s)) + 4 >= MAX_SCROLLBACK_BYTES,
{
    let b = byte_len(s) - MAX_SCROLLBACK_BYTES;
    if byte_len(s) > MAX_SCROLLBACK_BYTES {
        crate::text::lemma_offset_ends(s);
        let k = lemma_behind(s, 0, b);
        assert(s =~= s.take(k) + s.skip(k));
        crate::text::lemma_byte_len_add(s.take(k), s.skip(k));
        if k > 0 {
            crate::text::lemma_offset_step(s, k - 1);
        }
    }
}

proof fn lemma_behind(s: Seq<char>, i: int, b: int) -> (k: int)
    requires
        0 <= i <= s.len(),
        b >= 0,
        i > 0 ==> offset(s, i - 1) <= b,
    ensures
        k == first_behind(s, i, b),
        i <= k <= s.len(),
        k > 0 ==> offset(s, k - 1) <= b,
    decreases s.len() - i,
{
    if i < s.len() && offset(s, i) <= b {
        lemma_behind(s, i + 1, b)
    } else {
        i
    }
}

/// A command and its output are shown below what was shown before, the command behind a
/// dollar sign, as long as there is room.
pub proof fn lemma_commands_are_shown(shown: Seq<char>, command: Seq<char>, output: Seq<char>)
    requires
        byte_len(shown) + byte_len(command) + byte_len(sanitized(output)) + 4
            <= MAX_SCROLLBACK_BYTES,
    ensures
        ({
            let line = seq!['$', ' '] + command + seq!['\n'] + sanitized(output);
            with_entry(shown, command, output) == if shown.len() > 0 {
                shown + seq!['\n'] + line
            } else {
                line
            }
        }),
{
    reveal_strlit("$ ");
    let out = sanitized(output);
    let start = if shown.len() == 0 {
        shown
    } else {
        shown.push('\n')
    };
    let all = (start + "$ "@ + command).push('\n') + out;
    let line = seq!['$', ' '] + command + seq!['\n'] + out;
    let expected = if shown.len() > 0 {
        shown + seq!['\n'] + line
    } else {
        line
    };
    assert(all =~= expected);
    let dollar = seq!['$', ' '];
    let br = seq!['\n'];
    crate::text::lemma_single('$');
    crate::text::lemma_single(' ');
    crate::text::lemma_single('\n');
    assert(dollar =~= seq!['$'] + seq![' ']);
    crate::text::lemma_byte_len_add(seq!['$'], seq![' ']);
    crate::text::lemma_byte_len_add(dollar + command + br, out);
    crate::text::lemma_byte_len_add(dollar + command, br);
    crate::text::lemma_byte_len_add(dollar, command);
    crate::text::lemma_byte_len_add(shown + br, line);
    crate::text::lemma_byte_len_add(shown, br);
    lemma_scrollback_keeps_what_fits(all);
}

/// Everything that a command wrote is shown: its output, and its errors behind that on
/// lines of their own. Where it wrote nothing that is said.
pub proof fn lemma_all_output_is_shown(stdout: Seq<char>, stderr: Seq<char>)
    ensures
        ({
            let shown = all_output(stdout, stderr);
            &&& stdout.len() == 0 && stderr.len() == 0 ==> shown
                == "Command completed with no output."@
            &&& stdout.len() > 0 && stderr.len() == 0 ==> shown == stdout
            &&& stdout.len() == 0 && stderr.len() > 0 ==> shown == stderr
            &&& stdout.len() > 0 && stderr.len() > 0 && stdout.last() == '\n' ==> shown == stdout
                + stderr
            &&& stdout.len() > 0 && stderr.len() > 0 && stdout.last() != '\n' ==> shown == stdout
                + seq!['\n'] + stderr
        }),
{
    let shown = all_output(stdout, stderr);
    if stdout.len() == 0 && stderr.len() > 0 {
        assert(stdout + stderr =~= stderr);
    }
    if stdout.len() > 0 && stderr.len() > 0 && stdout.last() != '\n' {
        assert(shown =~= stdout + seq!['\n'] + stderr);
    }
}

/// `clear` empties the prompt and what is shown, and a change of directory empties the
/// prompt. Other commands leave it until they have run.
pub proof fn lemma_prompt_is_emptied(
    before: TerminalState,
    after: TerminalState,
    a: Seq<char>,
    b: Seq<char>,
)
    requires
        terminal_confirmed(before, after),
        forall|i: int| 0 <= i < a.len() ==> whitespace(#[trigger] a[i]),
        forall|i: int| 0 <= i < b.len() ==> whitespace(#[trigger] b[i]),
        !whitespace('c') && !whitespace('r'),
    ensures
        before.command@ == a + seq!['c', 'l', 'e', 'a', 'r'] + b ==> after.command@.len() == 0
            && after.output@.len() == 0 && after.cursor == 0 && after.directory
            == before.directory,
        before.command@ != a + seq!['c', 'l', 'e', 'a', 'r'] + b && is_cd(trimmed(before.command@))
            ==> after.command@.len() == 0 && after.cursor == 0,
        trimmed(before.command@) != seq!['c', 'l', 'e', 'a', 'r'] && !is_cd(
            trimmed(before.command@),
        ) ==> after == before,
{
    reveal_strlit("clear");
    let word = seq!['c', 'l', 'e', 'a', 'r'];
    assert("clear"@ =~= word);
    crate::strings::lemma_trimmed_inside(a, word, b);
}

} // verus!
