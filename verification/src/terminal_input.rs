//! Command parsing and completion for the terminal prompt.

use crate::chars::{control, is_control, is_whitespace, whitespace};
use crate::paths::{
    absolute, bare, behind_slash, components, file_name, join_path, joined_path, name_shown, opt_key,
    parent, path_key,
};
use crate::strings::{
    concat, lex_le, lower, occurs_at, opt_text, same_chars, starts_with, text_le, texts, to_lower,
};
use crate::text::{from_chars, from_range, push_char, push_text, to_chars};
use vstd::prelude::*;

verus! {

/// Why a command line could not be split into arguments.
#[derive(Clone, Copy, Debug, PartialEq, Eq, Structural)]
pub enum CommandError {
    /// The quote that is opened last is never closed.
    UnterminatedQuote(char),
}

impl CommandError {
    /// The text shown to the user.
    pub fn message(self) -> (r: String)
        ensures
            self matches CommandError::UnterminatedQuote(c) ==> r@ == "unterminated "@.push(c)
                + " quote in pdf_viewer"@,
    {
        match self {
            CommandError::UnterminatedQuote(c) => {
                let mut r = "unterminated ".to_owned();
                push_char(&mut r, c);
                push_text(&mut r, " quote in pdf_viewer");
                r
            },
        }
    }
}

/// Which backslashes take away the meaning of the character behind them.
#[derive(Clone, Copy, Debug, PartialEq, Eq, Structural)]
pub enum Escapes {
    /// Those in front of white space, a quote or another backslash.
    Syntax,
    /// Those in front of any character.
    Everything,
}

/// Whether a backslash in front of `c` is an escape.
pub open spec fn escapes(e: Escapes, c: char, space: bool) -> bool {
    e == Escapes::Everything || space || c == '\\' || c == '\'' || c == '"'
}

/// Arguments of a command line from character `i` on, where `spaces` marks the
/// white space, `current` is the argument being read, `quote` the open quote,
/// and `args` the arguments before it.
pub open spec fn split_from(
    s: Seq<char>,
    spaces: Seq<bool>,
    e: Escapes,
    i: int,
    current: Seq<char>,
    quote: Option<char>,
    args: Seq<Seq<char>>,
) -> Result<Seq<Seq<char>>, CommandError>
    decreases s.len() - i,
{
    if i >= s.len() {
        match quote {
            Some(c) => Err(CommandError::UnterminatedQuote(c)),
            None => Ok(
                if current.len() == 0 {
                    args
                } else {
                    args.push(current)
                },
            ),
        }
    } else if s[i] == '\\' {
        if i + 1 < s.len() && escapes(e, s[i + 1], spaces[i + 1]) {
            split_from(s, spaces, e, i + 2, current.push(s[i + 1]), quote, args)
        } else {
            split_from(s, spaces, e, i + 1, current.push('\\'), quote, args)
        }
    } else if (s[i] == '\'' || s[i] == '"') && quote == Some(s[i]) {
        split_from(s, spaces, e, i + 1, current, None, args)
    } else if (s[i] == '\'' || s[i] == '"') && quote is None {
        split_from(s, spaces, e, i + 1, current, Some(s[i]), args)
    } else if spaces[i] && quote is None {
        if current.len() == 0 {
            split_from(s, spaces, e, i + 1, current, quote, args)
        } else {
            split_from(s, spaces, e, i + 1, Seq::empty(), quote, args.push(current))
        }
    } else {
        split_from(s, spaces, e, i + 1, current.push(s[i]), quote, args)
    }
}

/// Arguments of a command line.
pub open spec fn split_command(s: Seq<char>, spaces: Seq<bool>, e: Escapes) -> Result<
    Seq<Seq<char>>,
    CommandError,
> {
    split_from(s, spaces, e, 0, Seq::empty(), None, Seq::empty())
}

/// Which characters of a text are white space.
pub open spec fn spaces_of(s: Seq<char>) -> Seq<bool> {
    Seq::new(s.len(), |i: int| whitespace(s[i]))
}

/// The result of splitting, by the texts of its arguments.
pub open spec fn args_view(r: Result<Vec<String>, CommandError>) -> Result<
    Seq<Seq<char>>,
    CommandError,
> {
    match r {
        Ok(v) => Ok(texts(v@)),
        Err(e) => Err(e),
    }
}

proof fn lemma_texts_push(v: Seq<String>, s: String)
    ensures
        texts(v.push(s)) == texts(v).push(s@),
{
    assert(texts(v.push(s)) =~= texts(v).push(s@));
}

/// Splits a command line whose white space is marked.
pub fn split_arguments(s: &Vec<char>, spaces: &Vec<bool>, e: Escapes) -> (r: Result<
    Vec<String>,
    CommandError,
>)
    requires
        s@.len() == spaces@.len(),
    ensures
        args_view(r) == split_command(s@, spaces@, e),
{
    let mut args: Vec<String> = Vec::new();
    let mut current: Vec<char> = Vec::new();
    let mut quote: Option<char> = None;
    let mut i: usize = 0;
    let n: usize = s.len();
    assert(texts(args@) =~= Seq::<Seq<char>>::empty());
    while i < n
        invariant
            i <= n == s@.len() == spaces@.len(),
            split_command(s@, spaces@, e) == split_from(
                s@,
                spaces@,
                e,
                i as int,
                current@,
                quote,
                texts(args@),
            ),
        decreases n - i,
    {
        let c: char = s[i];
        if c == '\\' {
            if n - i > 1 && (matches!(e, Escapes::Everything) || spaces[i + 1] || s[i + 1] == '\\'
                || s[i + 1] == '\'' || s[i + 1] == '"') {
                current.push(s[i + 1]);
                i = i + 2;
            } else {
                current.push(c);
                i = i + 1;
            }
        } else {
            let is_quote: bool = c == '\'' || c == '"';
            match quote {
                Some(q) => {
                    if is_quote && q == c {
                        quote = None;
                    } else {
                        current.push(c);
                    }
                },
                None => {
                    if is_quote {
                        quote = Some(c);
                    } else if spaces[i] {
                        if current.len() > 0 {
                            let done = from_chars(&current);
                            proof {
                                lemma_texts_push(args@, done);
                            }
                            args.push(done);
                            current = Vec::new();
                            assert(current@ =~= Seq::<char>::empty());
                        }
                    } else {
                        current.push(c);
                    }
                },
            }
            i = i + 1;
        }
    }
    match quote {
        Some(c) => Err(CommandError::UnterminatedQuote(c)),
        None => {
            if current.len() > 0 {
                let done = from_chars(&current);
                proof {
                    lemma_texts_push(args@, done);
                }
                args.push(done);
            }
            Ok(args)
        },
    }
}

fn mark_spaces(s: &Vec<char>) -> (r: Vec<bool>)
    ensures
        r@ == spaces_of(s@),
{
    let mut r: Vec<bool> = Vec::new();
    let mut i: usize = 0;
    while i < s.len()
        invariant
            i <= s@.len(),
            r@.len() == i,
            forall|j: int| 0 <= j < i ==> r@[j] == whitespace(s@[j]),
        decreases s@.len() - i,
    {
        r.push(is_whitespace(s[i]));
        i = i + 1;
    }
    assert(r@ =~= spaces_of(s@));
    r
}

/// Splits a command line into arguments. Quotes keep white space, and a
/// backslash has a meaning only in front of white space, a quote or another
/// backslash, so that Windows paths stay as they are.
pub fn parse_command(command: &str) -> (r: Result<Vec<String>, CommandError>)
    ensures
        args_view(r) == split_command(command@, spaces_of(command@), Escapes::Syntax),
{
    let chars = to_chars(command);
    let spaces = mark_spaces(&chars);
    split_arguments(&chars, &spaces, Escapes::Syntax)
}

/// Splits the command line of an external viewer, in which a backslash stands
/// in front of any character.
pub fn parse_viewer_command(command: &str) -> (r: Result<Vec<String>, CommandError>)
    ensures
        args_view(r) == split_command(command@, spaces_of(command@), Escapes::Everything),
{
    let chars = to_chars(command);
    let spaces = mark_spaces(&chars);
    split_arguments(&chars, &spaces, Escapes::Everything)
}

/// Whether `cuts` are the words of a text: the longest parts of it without white
/// space, from the first to the last.
pub open spec fn word_cuts(s: Seq<char>, spaces: Seq<bool>, cuts: Seq<(int, int)>) -> bool {
    &&& forall|k: int|
        0 <= k < cuts.len() ==> 0 <= (#[trigger] cuts[k]).0 < cuts[k].1 <= s.len()
    &&& forall|k: int, j: int|
        0 <= k < cuts.len() && (#[trigger] cuts[k]).0 <= j < cuts[k].1 ==> !#[trigger] spaces[j]
    &&& forall|k: int, l: int|
        0 <= k < l < cuts.len() ==> (#[trigger] cuts[k]).1 < (#[trigger] cuts[l]).0
    &&& forall|j: int|
        0 <= j < s.len() && !#[trigger] spaces[j] ==> exists|k: int|
            0 <= k < cuts.len() && (#[trigger] cuts[k]).0 <= j < cuts[k].1
}

/// The parts of a text that `cuts` names.
pub open spec fn cut_texts(s: Seq<char>, cuts: Seq<(int, int)>) -> Seq<Seq<char>> {
    Seq::new(cuts.len(), |k: int| s.subrange(cuts[k].0, cuts[k].1))
}

/// A command line without quotes and backslashes is cut at its white space: its
/// arguments are its words.
pub proof fn lemma_plain_command_splits(s: Seq<char>, spaces: Seq<bool>, e: Escapes)
    requires
        forall|i: int| 0 <= i < s.len() ==> s[i] != '\\' && s[i] != '\'' && s[i] != '"',
    ensures
        exists|cuts: Seq<(int, int)>| #[trigger]
            word_cuts(s, spaces, cuts) && split_command(s, spaces, e) == Ok::<_, CommandError>(
                cut_texts(s, cuts),
            ),
{
    let none = Seq::<(int, int)>::empty();
    assert(s.subrange(0, 0) =~= Seq::empty());
    assert(cut_texts(s, none) =~= Seq::empty());
    let cuts = lemma_plain_from(s, spaces, e, 0, 0, none);
    assert(word_cuts(s, spaces, cuts));
}

/// The words of a command line, where those before `start` are known and the one
/// that is being read has come to `i`.
proof fn lemma_plain_from(
    s: Seq<char>,
    spaces: Seq<bool>,
    e: Escapes,
    i: int,
    start: int,
    cuts: Seq<(int, int)>,
) -> (r: Seq<(int, int)>)
    requires
        0 <= start <= i <= s.len(),
        forall|i: int| 0 <= i < s.len() ==> s[i] != '\\' && s[i] != '\'' && s[i] != '"',
        forall|j: int| start <= j < i ==> !#[trigger] spaces[j],
        forall|k: int| 0 <= k < cuts.len() ==> (#[trigger] cuts[k]).1 < start,
        word_cuts(s.take(start), spaces, cuts),
    ensures
        word_cuts(s, spaces, r),
        split_from(s, spaces, e, i, s.subrange(start, i), None, cut_texts(s, cuts)) == Ok::<
            _,
            CommandError,
        >(cut_texts(s, r)),
    decreases s.len() - i,
{
    let current = s.subrange(start, i);
    let more = cuts.push((start, i));
    assert(cut_texts(s, more) =~= cut_texts(s, cuts).push(current));
    if i >= s.len() {
        if current.len() == 0 {
            assert(s.take(start) =~= s);
            cuts
        } else {
            assert forall|j: int| 0 <= j < s.len() && !#[trigger] spaces[j] implies exists|k: int|
                0 <= k < more.len() && (#[trigger] more[k]).0 <= j < more[k].1 by {
                lemma_word_kept(s, spaces, cuts, start, i, j);
            }
            more
        }
    } else if spaces[i] {
        if current.len() == 0 {
            assert(s.subrange(i + 1, i + 1) =~= current);
            assert forall|j: int|
                0 <= j < s.take(i + 1).len() && !#[trigger] spaces[j] implies exists|k: int|
                0 <= k < cuts.len() && (#[trigger] cuts[k]).0 <= j < cuts[k].1 by {
                assert(j < s.take(start).len());
            }
            lemma_plain_from(s, spaces, e, i + 1, i + 1, cuts)
        } else {
            assert(s.subrange(i + 1, i + 1) =~= Seq::empty());
            assert forall|j: int|
                0 <= j < s.take(i + 1).len() && !#[trigger] spaces[j] implies exists|k: int|
                0 <= k < more.len() && (#[trigger] more[k]).0 <= j < more[k].1 by {
                lemma_word_kept(s, spaces, cuts, start, i, j);
            }
            lemma_plain_from(s, spaces, e, i + 1, i + 1, more)
        }
    } else {
        assert(s.subrange(start, i + 1) =~= current.push(s[i]));
        lemma_plain_from(s, spaces, e, i + 1, start, cuts)
    }
}

proof fn lemma_word_kept(
    s: Seq<char>,
    spaces: Seq<bool>,
    cuts: Seq<(int, int)>,
    start: int,
    end: int,
    j: int,
)
    requires
        0 <= start <= end <= s.len(),
        0 <= j < end,
        !spaces[j],
        word_cuts(s.take(start), spaces, cuts),
    ensures
        exists|k: int|
            0 <= k < cuts.push((start, end)).len() && (#[trigger] cuts.push((start, end))[k]).0 <= j
                < cuts.push((start, end))[k].1,
{
    let more = cuts.push((start, end));
    if j >= start {
        assert(more[cuts.len() as int].0 <= j < more[cuts.len() as int].1);
    } else {
        assert(j < s.take(start).len());
        let k = choose|k: int| 0 <= k < cuts.len() && (#[trigger] cuts[k]).0 <= j < cuts[k].1;
        assert(more[k] == cuts[k]);
    }
}

/// No argument of a split command line is empty.
pub proof fn lemma_arguments_not_empty(s: Seq<char>, spaces: Seq<bool>, e: Escapes)
    ensures
        split_command(s, spaces, e) matches Ok(args) ==> forall|j: int|
            0 <= j < args.len() ==> (#[trigger] args[j]).len() > 0,
{
    lemma_not_empty_from(s, spaces, e, 0, Seq::empty(), None, Seq::empty());
}

proof fn lemma_not_empty_from(
    s: Seq<char>,
    spaces: Seq<bool>,
    e: Escapes,
    i: int,
    current: Seq<char>,
    quote: Option<char>,
    args: Seq<Seq<char>>,
)
    requires
        0 <= i,
        forall|j: int| 0 <= j < args.len() ==> (#[trigger] args[j]).len() > 0,
    ensures
        split_from(s, spaces, e, i, current, quote, args) matches Ok(all) ==> forall|j: int|
            0 <= j < all.len() ==> (#[trigger] all[j]).len() > 0,
    decreases s.len() - i,
{
    if i < s.len() {
        if s[i] == '\\' {
            if i + 1 < s.len() && escapes(e, s[i + 1], spaces[i + 1]) {
                lemma_not_empty_from(s, spaces, e, i + 2, current.push(s[i + 1]), quote, args);
            } else {
                lemma_not_empty_from(s, spaces, e, i + 1, current.push('\\'), quote, args);
            }
        } else if (s[i] == '\'' || s[i] == '"') && quote == Some(s[i]) {
            lemma_not_empty_from(s, spaces, e, i + 1, current, None, args);
        } else if (s[i] == '\'' || s[i] == '"') && quote is None {
            lemma_not_empty_from(s, spaces, e, i + 1, current, Some(s[i]), args);
        } else if spaces[i] && quote is None {
            if current.len() == 0 {
                lemma_not_empty_from(s, spaces, e, i + 1, current, quote, args);
            } else {
                lemma_not_empty_from(
                    s,
                    spaces,
                    e,
                    i + 1,
                    Seq::empty(),
                    quote,
                    args.push(current),
                );
            }
        } else {
            lemma_not_empty_from(s, spaces, e, i + 1, current.push(s[i]), quote, args);
        }
    }
}

/// `s` without the separators at its end.
pub open spec fn without_separators(s: Seq<char>, separator: char) -> Seq<char>
    decreases s.len(),
{
    if s.len() > 0 && (s.last() == '/' || s.last() == separator) {
        without_separators(s.drop_last(), separator)
    } else {
        s
    }
}

/// Directory and start of a name that a typed path stands for. `parent` and
/// `name` are what the platform takes for its last component and the rest.
pub open spec fn parent_and_prefix(
    raw: Seq<char>,
    separator: char,
    parent: Option<Seq<char>>,
    name: Option<Seq<char>>,
) -> (Option<Seq<char>>, Seq<char>) {
    if raw.len() > 0 && (raw.last() == '/' || raw.last() == separator) {
        let dir = without_separators(raw, separator);
        (
            Some(
                if dir.len() == 0 {
                    seq![separator]
                } else {
                    dir
                },
            ),
            Seq::empty(),
        )
    } else {
        (
            match parent {
                Some(p) => if p.len() == 0 {
                    None
                } else {
                    Some(p)
                },
                None => None,
            },
            match name {
                Some(n) => n,
                None => Seq::empty(),
            },
        )
    }
}

/// Splits a typed path into the directory to search and the start of a name,
/// given the platform's separator, parent and file name.
pub fn split_typed_path(
    raw: &str,
    separator: char,
    parent: Option<String>,
    name: Option<String>,
) -> (r: (Option<String>, String))
    ensures
        (opt_text(r.0), r.1@) == parent_and_prefix(
            raw@,
            separator,
            opt_text(parent),
            opt_text(name),
        ),
{
    let chars = to_chars(raw);
    let n: usize = chars.len();
    if n > 0 && (chars[n - 1] == '/' || chars[n - 1] == separator) {
        let mut end: usize = n;
        assert(chars@.take(n as int) =~= chars@);
        while end > 0 && (chars[end - 1] == '/' || chars[end - 1] == separator)
            invariant
                end <= chars@.len(),
                without_separators(chars@, separator) == without_separators(
                    chars@.take(end as int),
                    separator,
                ),
            decreases end,
        {
            end = end - 1;
            assert(chars@.take(end + 1).drop_last() =~= chars@.take(end as int));
        }
        let mut dir = from_range(&chars, 0, end);
        assert(chars@.subrange(0, end as int) =~= chars@.take(end as int));
        if end == 0 {
            push_char(&mut dir, separator);
            assert(dir@ =~= seq![separator]);
        }
        (Some(dir), String::new())
    } else {
        let dir: Option<String> = match parent {
            Some(p) => if p.as_str().is_empty() {
                None
            } else {
                Some(p)
            },
            None => None,
        };
        let prefix: String = match name {
            Some(s) => s,
            None => String::new(),
        };
        (dir, prefix)
    }
}

/// Whether a text is one name on every platform: it holds no separator and no mark
/// of a drive, and stands for no folder.
pub open spec fn plain_name(s: Seq<char>) -> bool {
    &&& s.len() > 0
    &&& s != seq!['.']
    &&& s != seq!['.', '.']
    &&& forall|i: int| 0 <= i < s.len() ==> s[i] != '/' && s[i] != '\\' && s[i] != ':'
}

/// Whether a path falls into the same components on every platform: it holds no
/// backslash and no mark of a drive, and does not start with two slashes.
pub open spec fn portable(s: Seq<char>) -> bool {
    &&& !(s.len() > 1 && s[0] == '/' && s[1] == '/')
    &&& forall|i: int| 0 <= i < s.len() ==> s[i] != '\\' && s[i] != ':'
}

/// Whether a text is a plain name below a folder, which is written without anything
/// to be dropped from its end.
pub open spec fn typed_below(s: Seq<char>, folder: Seq<char>, name: Seq<char>) -> bool {
    &&& s == joined_path(folder, name)
    &&& plain_name(name)
    &&& folder.len() > 0
    &&& bare(folder) == folder
}

/// `Path::parent`: the path without its last component, if it has one besides the
/// root. That of a plain name below a folder is written as the folder is. How paths
/// fall into components that are not portable depends on the platform, so nothing is
/// stated of them.
#[verifier::external_body]
fn path_parent(raw: &str) -> (r: Option<String>)
    ensures
        portable(raw@) ==> opt_key(r) == (match parent(raw@) {
            Some(dir) => Some(path_key(dir)),
            None => None,
        }),
        forall|folder: Seq<char>, name: Seq<char>|
            portable(raw@) && #[trigger] typed_below(raw@, folder, name) ==> opt_text(r) == Some(
                folder,
            ),
{
    std::path::Path::new(raw).parent().map(|p| p.display().to_string())
}

/// `Path::file_name`: the last component, if it is a normal one. How paths fall into
/// components that are not portable depends on the platform, so nothing is stated of
/// them.
#[verifier::external_body]
fn path_file_name(raw: &str) -> (r: Option<String>)
    ensures
        portable(raw@) ==> opt_text(r) == file_name(raw@),
{
    std::path::Path::new(raw).file_name().and_then(|n| n.to_str()).map(|n| n.to_owned())
}

/// `std::path::MAIN_SEPARATOR`: the separator of the platform it runs on, a slash or
/// a backslash.
#[verifier::external_body]
fn main_separator() -> (r: char)
    ensures
        r == '/' || r == '\\',
{
    std::path::MAIN_SEPARATOR
}

/// What holds on every platform of the directory and of the start of a name that a
/// typed path stands for.
pub open spec fn typed_parts(raw: Seq<char>, dir: Option<Seq<char>>, prefix: Seq<char>) -> bool {
    if raw.len() > 0 && raw.last() == '/' {
        let folder = without_separators(raw, '/');
        &&& prefix.len() == 0
        &&& dir is Some
        &&& !raw.contains('\\') ==> if folder.len() > 0 {
            dir == Some(folder)
        } else {
            dir == Some(seq!['/']) || dir == Some(seq!['\\'])
        }
    } else {
        &&& portable(raw) ==> prefix == name_shown(raw)
        &&& portable(raw) ==> match parent(raw) {
            Some(above) => if above.len() == 0 {
                dir is None
            } else {
                dir matches Some(d) && path_key(d) == path_key(above)
            },
            None => dir is None,
        }
        &&& forall|folder: Seq<char>, name: Seq<char>|
            portable(raw) && #[trigger] typed_below(raw, folder, name) ==> dir == Some(folder)
                && prefix == name
        &&& plain_name(raw) ==> dir is None && prefix == raw
    }
}

/// The name of a plain name is the whole of it, and it lies in the folder that it is
/// looked for in.
proof fn lemma_plain_name(s: Seq<char>)
    requires
        plain_name(s),
    ensures
        portable(s),
        file_name(s) == Some(s),
        parent(s) == Some(Seq::<char>::empty()),
{
    let n = s.len() as int;
    assert(bare(s) == s);
    crate::paths::lemma_behind_slash(s, n);
    if behind_slash(s, n) > 0 {
        crate::paths::lemma_slash_before(s, n);
    }
    assert(s.skip(0) =~= s);
    assert(s.take(0) =~= Seq::empty());
    assert(s[0] != '/');
}

/// A plain name below a folder has that name.
proof fn lemma_typed_below(s: Seq<char>, folder: Seq<char>, name: Seq<char>)
    requires
        typed_below(s, folder, name),
    ensures
        file_name(s) == Some(name),
        s.last() == name.last(),
        s.len() > 0,
{
    let n = s.len() as int;
    let at = n - name.len();
    assert(s.skip(at) =~= name);
    assert(name[0] == s[at]);
    assert(s[at - 1] == '/');
    assert(forall|i: int| at <= i < n ==> s[i] == name[i - at]);
    lemma_behind_plain(s, n, at);
    assert(s[n - 1] == name[name.len() - 1]);
    if s[n - 1] == '.' && s[n - 2] == '/' {
        if name.len() > 1 {
            assert(s[n - 2] == name[name.len() - 2]);
        } else {
            assert(name =~= seq!['.']);
        }
    }
    assert(bare(s) == s);
}

proof fn lemma_behind_plain(s: Seq<char>, k: int, at: int)
    requires
        0 < at <= k <= s.len(),
        s[at - 1] == '/',
        forall|i: int| at <= i < k ==> s[i] != '/',
    ensures
        behind_slash(s, k) == at,
    decreases k,
{
    if k > at {
        lemma_behind_plain(s, k - 1, at);
    }
}

/// A path without components that does not start at the root is empty.
proof fn lemma_no_components(s: Seq<char>)
    ensures
        components(s).len() == 0 && !absolute(s) <==> s.len() == 0,
{
    let n = s.len() as int;
    crate::paths::lemma_last_component(s);
    crate::paths::lemma_bare_first(s);
    if n > 0 && s[0] != '/' {
        assert(bare(s)[0] == s[0]);
    }
}

proof fn lemma_without_separators(s: Seq<char>)
    requires
        !s.contains('\\'),
    ensures
        without_separators(s, '\\') == without_separators(s, '/'),
    decreases s.len(),
{
    if s.len() > 0 {
        assert(s.contains(s.last()));
        assert forall|i: int| 0 <= i < s.drop_last().len() implies s.drop_last()[i] != '\\' by {
            assert(s.contains(s[i]));
        }
        lemma_without_separators(s.drop_last());
    }
}

/// Splits a typed path into the directory to search and the start of a name. A path
/// that ends in a slash names a directory alone. How other paths fall into the two is
/// left to the platform where platforms differ.
pub fn terminal_path_parent_and_prefix(raw: &str) -> (r: (Option<String>, String))
    ensures
        exists|separator: char, parent: Option<Seq<char>>, name: Option<Seq<char>>|
            (separator == '/' || separator == '\\') && (opt_text(r.0), r.1@)
                == #[trigger] parent_and_prefix(raw@, separator, parent, name),
        typed_parts(raw@, opt_text(r.0), r.1@),
{
    let separator: char = main_separator();
    let above = path_parent(raw);
    let name = path_file_name(raw);
    let ghost p = opt_text(above);
    let ghost n = opt_text(name);
    let r = split_typed_path(raw, separator, above, name);
    proof {
        let s = raw@;
        assert((opt_text(r.0), r.1@) == parent_and_prefix(s, separator, p, n));
        if !s.contains('\\') {
            lemma_without_separators(s);
        }
        if plain_name(s) {
            lemma_plain_name(s);
        }
        if p is Some {
            lemma_no_components(p->0);
        }
        if parent(s) is Some {
            lemma_no_components(parent(s)->0);
        }
        assert forall|folder: Seq<char>, name: Seq<char>|
            portable(s) && #[trigger] typed_below(s, folder, name) implies opt_text(r.0) == Some(
            folder,
        ) && r.1@ == name by {
            lemma_typed_below(s, folder, name);
            assert(name.last() == name[name.len() - 1]);
        }
    }
    r
}

/// Order of candidates: by their keys, and by their texts where keys agree.
pub open spec fn candidate_le(
    a: (Seq<char>, Seq<char>),
    b: (Seq<char>, Seq<char>),
) -> bool {
    if a.0 == b.0 {
        lex_le(a.1, b.1)
    } else {
        lex_le(a.0, b.0)
    }
}

/// Keys and texts of candidates.
pub open spec fn pair_views(v: Seq<(String, String)>) -> Seq<(Seq<char>, Seq<char>)> {
    Seq::new(v.len(), |i: int| (v[i].0@, v[i].1@))
}

/// Whether candidates are in order.
pub open spec fn in_order(v: Seq<(Seq<char>, Seq<char>)>) -> bool {
    forall|i: int, j: int| 0 <= i < j < v.len() ==> candidate_le(#[trigger] v[i], #[trigger] v[j])
}

/// A candidate with its lower-case text as its key.
pub open spec fn keyed(s: Seq<char>) -> (Seq<char>, Seq<char>) {
    (lower(s), s)
}

pub proof fn lemma_candidate_order(
    a: (Seq<char>, Seq<char>),
    b: (Seq<char>, Seq<char>),
    c: (Seq<char>, Seq<char>),
)
    ensures
        candidate_le(a, b) || candidate_le(b, a),
        candidate_le(a, b) && candidate_le(b, c) ==> candidate_le(a, c),
        candidate_le(a, b) && candidate_le(b, a) ==> a == b,
{
    crate::strings::lemma_lex_total(a.0, b.0);
    crate::strings::lemma_lex_total(a.1, b.1);
    if candidate_le(a, b) && candidate_le(b, c) {
        if a.0 == b.0 && b.0 == c.0 {
            crate::strings::lemma_lex_transitive(a.1, b.1, c.1);
        } else if lex_le(a.0, b.0) && lex_le(b.0, c.0) {
            crate::strings::lemma_lex_transitive(a.0, b.0, c.0);
            if a.0 == c.0 {
                crate::strings::lemma_lex_antisymmetric(a.0, b.0);
            }
        }
    }
    if candidate_le(a, b) && candidate_le(b, a) {
        if a.0 == b.0 {
            crate::strings::lemma_lex_antisymmetric(a.1, b.1);
        } else {
            crate::strings::lemma_lex_antisymmetric(a.0, b.0);
        }
    }
}

fn pair_le(a: &(String, String), b: &(String, String)) -> (r: bool)
    ensures
        r == candidate_le((a.0@, a.1@), (b.0@, b.1@)),
{
    let ka = to_chars(a.0.as_str());
    let kb = to_chars(b.0.as_str());
    if same_chars(&ka, &kb) {
        text_le(&to_chars(a.1.as_str()), &to_chars(b.1.as_str()))
    } else {
        text_le(&ka, &kb)
    }
}

/// Sorts candidates that carry their keys.
pub fn sort_keyed(items: &mut Vec<(String, String)>)
    ensures
        in_order(pair_views(final(items)@)),
        pair_views(final(items)@).to_multiset() == pair_views(old(items)@).to_multiset(),
{
    let mut rest: Vec<(String, String)> = Vec::new();
    let ghost input = pair_views(items@);
    let ghost all = items@;
    std::mem::swap(&mut rest, items);
    assert(pair_views(items@) =~= Seq::<(Seq<char>, Seq<char>)>::empty());
    assert(pair_views(items@) + pair_views(rest@) =~= input);
    while rest.len() > 0
        invariant
            in_order(pair_views(items@)),
            (pair_views(items@) + pair_views(rest@)).to_multiset() == input.to_multiset(),
        decreases rest@.len(),
    {
        let ghost sorted = pair_views(items@);
        let ghost before = pair_views(rest@);
        let next: (String, String) = rest.remove(0);
        let ghost x = (next.0@, next.1@);
        assert(pair_views(rest@) =~= before.drop_first());
        assert(before[0] == x);
        let mut at: usize = items.len();
        while at > 0 && !pair_le(&items[at - 1], &next)
            invariant
                at <= items@.len(),
                x == (next.0@, next.1@),
                sorted == pair_views(items@),
                forall|j: int| at <= j < items@.len() ==> !candidate_le(#[trigger] sorted[j], x),
            decreases at,
        {
            at = at - 1;
        }
        items.insert(at, next);
        let ghost now = sorted.insert(at as int, x);
        proof {
            assert(pair_views(items@) =~= now);
            assert forall|i: int, j: int| 0 <= i < j < now.len() implies candidate_le(
                #[trigger] now[i],
                #[trigger] now[j],
            ) by {
                let p = if i < at {
                    i
                } else {
                    i - 1
                };
                let q = if j < at {
                    j
                } else {
                    j - 1
                };
                if i == at {
                    assert(now[j] == sorted[q]);
                    lemma_candidate_order(sorted[q], x, x);
                } else if j == at {
                    assert(now[i] == sorted[p]);
                    lemma_candidate_order(sorted[p], sorted[at - 1], x);
                } else {
                    assert(now[i] == sorted[p] && now[j] == sorted[q]);
                }
            }
            vstd::seq_lib::to_multiset_insert(sorted, at as int, x);
            let tail = pair_views(rest@);
            assert(sorted + before =~= sorted + (seq![x] + tail));
            vstd::seq_lib::lemma_multiset_commutative(sorted, before);
            vstd::seq_lib::lemma_multiset_commutative(now, tail);
            vstd::seq_lib::to_multiset_insert(tail, 0, x);
            assert(before =~= tail.insert(0, x));
            assert(now.to_multiset().add(tail.to_multiset()) =~= sorted.to_multiset().add(
                before.to_multiset(),
            ));
        }
    }
    assert(pair_views(items@) + pair_views(rest@) =~= pair_views(items@));
}

/// Sorts completion candidates without regard to case, those that differ in
/// case alone by their code points.
pub fn sort_terminal_candidates(candidates: &mut Vec<String>)
    ensures
        texts(final(candidates)@).to_multiset() == texts(old(candidates)@).to_multiset(),
        in_order(texts(final(candidates)@).map_values(|s: Seq<char>| keyed(s))),
{
    let mut pairs: Vec<(String, String)> = Vec::new();
    let ghost input = texts(candidates@);
    let ghost key = |s: Seq<char>| keyed(s);
    let ghost text = |p: (Seq<char>, Seq<char>)| p.1;
    let mut i: usize = 0;
    while i < candidates.len()
        invariant
            i <= candidates@.len(),
            input == texts(candidates@),
            pairs@.len() == i,
            forall|j: int|
                0 <= j < i ==> pair_views(pairs@)[j] == keyed(#[trigger] input[j]),
        decreases candidates@.len() - i,
    {
        let k = to_lower(candidates[i].as_str());
        let ghost old_pairs = pair_views(pairs@);
        pairs.push((k, candidates[i].clone()));
        assert(pair_views(pairs@) =~= old_pairs.push(keyed(input[i as int])));
        i = i + 1;
    }
    assert(pair_views(pairs@) =~= input.map_values(key));
    sort_keyed(&mut pairs);
    let ghost sorted = pair_views(pairs@);
    proof {
        assert forall|j: int| 0 <= j < sorted.len() implies #[trigger] sorted[j] == keyed(
            sorted[j].1,
        ) by {
            broadcast use vstd::seq_lib::group_to_multiset_ensures;

            assert(sorted.contains(sorted[j]));
            assert(sorted.to_multiset().count(sorted[j]) > 0);
            assert(input.map_values(key).contains(sorted[j]));
        }
        lemma_map_multiset(sorted, input.map_values(key), text);
        assert(input.map_values(key).map_values(text) =~= input);
    }
    let mut out: Vec<String> = Vec::new();
    let mut n: usize = 0;
    while n < pairs.len()
        invariant
            n <= pairs@.len(),
            sorted == pair_views(pairs@),
            out@.len() == n,
            forall|j: int| 0 <= j < n ==> texts(out@)[j] == (#[trigger] sorted[j]).1,
        decreases pairs@.len() - n,
    {
        let ghost before = texts(out@);
        out.push(pairs[n].1.clone());
        assert(texts(out@) =~= before.push(sorted[n as int].1));
        n = n + 1;
    }
    assert(texts(out@) =~= sorted.map_values(text));
    assert(texts(out@).map_values(key) =~= sorted);
    *candidates = out;
}

/// Equal collections stay equal when every element is mapped.
proof fn lemma_map_multiset<A, B>(a: Seq<A>, b: Seq<A>, f: spec_fn(A) -> B)
    requires
        a.to_multiset() == b.to_multiset(),
    ensures
        a.map_values(f).to_multiset() == b.map_values(f).to_multiset(),
    decreases a.len(),
{
    broadcast use vstd::seq_lib::group_to_multiset_ensures;

    if a.len() == 0 {
        assert(b.to_multiset().len() == 0);
        assert(b.len() == 0);
        assert(a.map_values(f) =~= b.map_values(f));
    } else {
        let x = a[0];
        assert(a.contains(x));
        assert(a.to_multiset().count(x) > 0);
        assert(b.contains(x));
        let i = b.index_of(x);
        assert(0 <= i < b.len() && b[i] == x);
        vstd::seq_lib::to_multiset_remove(a, 0);
        vstd::seq_lib::to_multiset_remove(b, i);
        let ra = a.remove(0);
        let rb = b.remove(i);
        lemma_map_multiset(ra, rb, f);
        assert(a.map_values(f) =~= ra.map_values(f).insert(0, f(x)));
        assert(b.map_values(f) =~= rb.map_values(f).insert(i, f(x)));
        vstd::seq_lib::to_multiset_insert(ra.map_values(f), 0, f(x));
        vstd::seq_lib::to_multiset_insert(rb.map_values(f), i, f(x));
    }
}

/// Whether a character of command output is shown.
pub open spec fn printable(c: char, is_control: bool) -> bool {
    c == '\n' || c == '\t' || !is_control
}

/// Command output without control characters, but for line breaks and tabs.
pub open spec fn sanitized(s: Seq<char>) -> Seq<char> {
    s.filter(|c: char| printable(c, control(c)))
}

/// Cleaning output that is clean already changes nothing.
pub proof fn lemma_sanitize_idempotent(s: Seq<char>)
    ensures
        sanitized(sanitized(s)) == sanitized(s),
{
    let keep = |c: char| printable(c, control(c));
    let t = s.filter(keep);
    assert forall|i: int| 0 <= i < t.len() implies keep(#[trigger] t[i]) by {
        s.lemma_filter_pred(keep, i);
    }
    lemma_filter_all(t, keep);
}

proof fn lemma_filter_all<A>(s: Seq<A>, p: spec_fn(A) -> bool)
    requires
        forall|i: int| 0 <= i < s.len() ==> p(#[trigger] s[i]),
    ensures
        s.filter(p) == s,
    decreases s.len(),
{
    reveal(Seq::filter);
    if s.len() > 0 {
        lemma_filter_all(s.drop_last(), p);
        assert(s.drop_last().push(s.last()) =~= s);
    }
}

/// Removes control characters, but for line breaks and tabs.
pub fn sanitize_terminal_output(output: &str) -> (r: String)
    ensures
        r@ == sanitized(output@),
{
    let chars = to_chars(output);
    let ghost keep = |c: char| printable(c, control(c));
    let mut r = String::new();
    let mut i: usize = 0;
    assert(chars@.take(0).filter(keep) =~= Seq::<char>::empty()) by {
        reveal(Seq::filter);
    }
    while i < chars.len()
        invariant
            i <= chars@.len(),
            r@ == chars@.take(i as int).filter(keep),
            keep == (|c: char| printable(c, control(c))),
        decreases chars@.len() - i,
    {
        let c: char = chars[i];
        assert(chars@.take(i + 1).drop_last() =~= chars@.take(i as int));
        assert(chars@.take(i + 1).filter(keep) == if keep(c) {
            chars@.take(i as int).filter(keep).push(c)
        } else {
            chars@.take(i as int).filter(keep)
        }) by {
            reveal(Seq::filter);
        }
        if c == '\n' || c == '\t' || !is_control(c) {
            push_char(&mut r, c);
        }
        i = i + 1;
    }
    assert(chars@.take(chars@.len() as int) =~= chars@);
    r
}

/// Where the completions of a typed path are looked for, and how they are written:
/// behind `shown_parent`, with `separator` behind it and behind folders.
#[derive(Debug)]
pub struct CompletionPlan {
    pub directory: String,
    pub shown_parent: Option<String>,
    pub name_prefix: String,
    pub separator: char,
}

/// A place below a folder: `path` itself where it starts at the root.
pub open spec fn placed(folder: Seq<char>, path: Option<Seq<char>>) -> Seq<char> {
    match path {
        Some(p) => joined_path(folder, p),
        None => folder,
    }
}

fn place(folder: &str, path: &Option<String>) -> (r: String)
    ensures
        r@ == placed(folder@, opt_text(*path)),
{
    match path {
        Some(p) => join_path(folder, p.as_str()),
        None => folder.to_owned(),
    }
}

/// Plans the completion of a path below the home folder, given its folder and the
/// start of its name.
pub fn plan_home_completion(
    home: &str,
    parent: Option<String>,
    name_prefix: String,
    separator: char,
) -> (r: CompletionPlan)
    ensures
        r.directory@ == placed(home@, opt_text(parent)),
        opt_text(r.shown_parent) == Some(
            match parent {
                Some(p) => seq!['~', separator] + p@,
                None => seq!['~'],
            },
        ),
        r.name_prefix == name_prefix,
        r.separator == separator,
{
    let directory = place(home, &parent);
    let mut shown = String::new();
    push_char(&mut shown, '~');
    assert(shown@ =~= seq!['~']);
    match &parent {
        Some(p) => {
            push_char(&mut shown, separator);
            assert(shown@ =~= seq!['~', separator]);
            shown = concat(shown.as_str(), p.as_str());
        },
        None => {},
    }
    CompletionPlan { directory, shown_parent: Some(shown), name_prefix, separator }
}

/// Plans the completion of another path.
pub fn plan_path_completion(
    working_directory: &str,
    parent: Option<String>,
    name_prefix: String,
    separator: char,
) -> (r: CompletionPlan)
    ensures
        r.directory@ == placed(working_directory@, opt_text(parent)),
        r.shown_parent == parent,
        r.name_prefix == name_prefix,
        r.separator == separator,
{
    let directory = place(working_directory, &parent);
    CompletionPlan { directory, shown_parent: parent, name_prefix, separator }
}

/// Whether a plan is one for a typed path whose directory is `parent`.
pub open spec fn planned(
    plan: CompletionPlan,
    prefix: Seq<char>,
    working_directory: Seq<char>,
    home: Option<String>,
    parent: Option<Seq<char>>,
) -> bool {
    &&& plan.separator == '/' || plan.separator == '\\'
    &&& if occurs_at(prefix, "~/"@, 0) {
        &&& typed_parts(prefix.skip(2), parent, plan.name_prefix@)
        &&& home matches Some(h) && plan.directory@ == placed(h@, parent)
        &&& opt_text(plan.shown_parent) == Some(
            match parent {
                Some(p) => seq!['~', plan.separator] + p,
                None => seq!['~'],
            },
        )
    } else {
        &&& typed_parts(prefix, parent, plan.name_prefix@)
        &&& plan.directory@ == placed(working_directory, parent)
        &&& opt_text(plan.shown_parent) == parent
    }
}

/// Plans the completion of a typed path. Without a folder to start from there is
/// none. How the path falls into folder and name is left to the platform.
pub fn plan_completion(
    prefix: &str,
    working_directory: &Option<String>,
    home: &Option<String>,
) -> (r: Option<CompletionPlan>)
    ensures
        ({
            let below_home = occurs_at(prefix@, "~/"@, 0);
            r is Some <==> working_directory is Some && (below_home ==> home is Some)
        }),
        r matches Some(plan) ==> exists|parent: Option<Seq<char>>| #[trigger]
            planned(plan, prefix@, working_directory.unwrap()@, *home, parent),
{
    let directory: &str = match working_directory {
        Some(d) => d.as_str(),
        None => return None,
    };
    let separator: char = main_separator();
    proof {
        reveal_strlit("~/");
    }
    if starts_with(prefix, "~/") {
        let folder: &str = match home {
            Some(h) => h.as_str(),
            None => return None,
        };
        let chars = to_chars(prefix);
        let rest = from_range(&chars, 2, chars.len());
        assert(rest@ =~= prefix@.skip(2));
        let (parent, name) = terminal_path_parent_and_prefix(rest.as_str());
        let ghost p = opt_text(parent);
        let plan = plan_home_completion(folder, parent, name, separator);
        assert(planned(plan, prefix@, directory@, *home, p));
        return Some(plan);
    }
    let (parent, name) = terminal_path_parent_and_prefix(prefix);
    let ghost p = opt_text(parent);
    let plan = plan_path_completion(directory, parent, name, separator);
    assert(planned(plan, prefix@, directory@, *home, p));
    Some(plan)
}

/// Whether a name starts with what was typed, without regard to case.
pub open spec fn completes(plan: CompletionPlan, name: Seq<char>) -> bool {
    occurs_at(lower(name), lower(plan.name_prefix@), 0)
}

/// How a name is offered.
pub open spec fn offered(plan: CompletionPlan, name: Seq<char>, is_directory: bool) -> Seq<char> {
    let whole = match plan.shown_parent {
        Some(p) => p@.push(plan.separator) + name,
        None => name,
    };
    if is_directory {
        whole.push(plan.separator)
    } else {
        whole
    }
}

/// What the first `n` names of a folder offer, in their order.
pub open spec fn all_offered(plan: CompletionPlan, entries: Seq<(String, bool)>, n: int) -> Seq<
    Seq<char>,
>
    decreases n,
{
    if n <= 0 {
        Seq::empty()
    } else {
        let before = all_offered(plan, entries, n - 1);
        let (name, is_directory) = entries[n - 1];
        if completes(plan, name@) {
            before.push(offered(plan, name@, is_directory))
        } else {
            before
        }
    }
}

/// The completions among the names of a folder, sorted.
pub fn terminal_path_candidates(plan: &CompletionPlan, entries: &Vec<(String, bool)>) -> (r: Vec<
    String,
>)
    ensures
        texts(r@).to_multiset() == all_offered(
            *plan,
            entries@,
            entries@.len() as int,
        ).to_multiset(),
        in_order(texts(r@).map_values(|s: Seq<char>| keyed(s))),
{
    let wanted = to_lower(plan.name_prefix.as_str());
    let mut r: Vec<String> = Vec::new();
    let mut i: usize = 0;
    assert(texts(r@) =~= Seq::empty());
    while i < entries.len()
        invariant
            i <= entries@.len(),
            wanted@ == lower(plan.name_prefix@),
            texts(r@) == all_offered(*plan, entries@, i as int),
        decreases entries@.len() - i,
    {
        let name: &str = entries[i].0.as_str();
        if starts_with(to_lower(name).as_str(), wanted.as_str()) {
            let mut whole = match &plan.shown_parent {
                Some(p) => {
                    let mut s = p.clone();
                    push_char(&mut s, plan.separator);
                    concat(s.as_str(), name)
                },
                None => name.to_owned(),
            };
            if entries[i].1 {
                push_char(&mut whole, plan.separator);
            }
            let ghost before = r@;
            r.push(whole);
            assert(texts(r@) =~= texts(before).push(whole@));
        }
        i = i + 1;
    }
    sort_terminal_candidates(&mut r);
    r
}

// ---------------------------------------------------------------------------
// What holds of all command lines
// ---------------------------------------------------------------------------

proof fn lemma_read_on(
    s: Seq<char>,
    spaces: Seq<bool>,
    e: Escapes,
    i: int,
    k: int,
    current: Seq<char>,
    quote: Option<char>,
    args: Seq<Seq<char>>,
)
    requires
        0 <= i <= k <= s.len(),
        forall|j: int| i <= j < k ==> #[trigger] s[j] != '\\',
        quote matches Some(q) ==> forall|j: int| i <= j < k ==> #[trigger] s[j] != q,
        quote is None ==> forall|j: int|
            i <= j < k ==> #[trigger] s[j] != '\'' && s[j] != '"' && !spaces[j],
    ensures
        split_from(s, spaces, e, i, current, quote, args) == split_from(
            s,
            spaces,
            e,
            k,
            current + s.subrange(i, k),
            quote,
            args,
        ),
    decreases k - i,
{
    if i < k {
        assert(s[i] != '\\');
        lemma_read_on(s, spaces, e, i + 1, k, current.push(s[i]), quote, args);
        assert(current.push(s[i]) + s.subrange(i + 1, k) =~= current + s.subrange(i, k));
    } else {
        assert(current + s.subrange(i, k) =~= current);
    }
}

/// What stands in quotes is one argument, white space and quotes of the other kind
/// included. A quote that is not closed is an error that names it.
pub proof fn lemma_quotes_hold_together(quote: char, inner: Seq<char>, e: Escapes)
    requires
        quote == '\'' || quote == '"',
        forall|i: int| 0 <= i < inner.len() ==> #[trigger] inner[i] != quote && inner[i] != '\\',
        inner.len() > 0,
    ensures
        ({
            let closed = seq![quote] + inner + seq![quote];
            let open = seq![quote] + inner;
            &&& split_command(closed, spaces_of(closed), e) == Ok::<_, CommandError>(seq![inner])
            &&& split_command(open, spaces_of(open), e) == Err::<Seq<Seq<char>>, _>(
                CommandError::UnterminatedQuote(quote),
            )
        }),
{
    let closed = seq![quote] + inner + seq![quote];
    let open = seq![quote] + inner;
    let n = inner.len() as int;
    let none = Seq::<char>::empty();
    let no_args = Seq::<Seq<char>>::empty();
    assert forall|j: int| 1 <= j < n + 1 implies #[trigger] closed[j] != '\\' && closed[j]
        != quote by {
        assert(closed[j] == inner[j - 1]);
    }
    assert forall|j: int| 1 <= j < n + 1 implies #[trigger] open[j] != '\\' && open[j] != quote by {
        assert(open[j] == inner[j - 1]);
    }
    lemma_read_on(closed, spaces_of(closed), e, 1, n + 1, none, Some(quote), no_args);
    lemma_read_on(open, spaces_of(open), e, 1, n + 1, none, Some(quote), no_args);
    assert(none + closed.subrange(1, n + 1) =~= inner);
    assert(closed[n + 1] == quote && closed[0] == quote && open[0] == quote);
    assert(no_args.push(inner) =~= seq![inner]);
    assert(split_from(closed, spaces_of(closed), e, n + 2, inner, None, no_args) == Ok::<
        _,
        CommandError,
    >(seq![inner]));
}

/// A backslash takes its meaning from the character behind it. In front of white space,
/// of a quote or of another backslash it stands for that character; so it does in front
/// of any other where everything can be escaped, and else it stands for itself.
pub proof fn lemma_backslash_escapes(c: char, e: Escapes)
    ensures
        ({
            let s = seq!['\\', c];
            let special = whitespace(c) || c == '\\' || c == '\'' || c == '"';
            &&& special || e == Escapes::Everything ==> split_command(s, spaces_of(s), e) == Ok::<
                _,
                CommandError,
            >(seq![seq![c]])
            &&& !special && e == Escapes::Syntax ==> split_command(s, spaces_of(s), e) == Ok::<
                _,
                CommandError,
            >(seq![s])
        }),
{
    let s = seq!['\\', c];
    let none = Seq::<char>::empty();
    let no_args = Seq::<Seq<char>>::empty();
    assert(no_args.push(seq![c]) =~= seq![seq![c]]);
    assert(none.push(c) =~= seq![c]);
    assert(none.push('\\').push(c) =~= s);
    assert(no_args.push(s) =~= seq![s]);
    assert(spaces_of(s)[1] == whitespace(c));
    if !(whitespace(c) || c == '\\' || c == '\'' || c == '"') && e == Escapes::Syntax {
        assert(split_from(s, spaces_of(s), e, 2, s, None, no_args) == Ok::<_, CommandError>(
            seq![s],
        ));
        assert(split_from(s, spaces_of(s), e, 1, none.push('\\'), None, no_args) == Ok::<
            _,
            CommandError,
        >(seq![s]));
    } else if e == Escapes::Everything || whitespace(c) || c == '\\' || c == '\'' || c == '"' {
        assert(split_from(s, spaces_of(s), e, 2, seq![c], None, no_args) == Ok::<_, CommandError>(
            seq![seq![c]],
        ));
    }
}

/// The names of a folder that are offered are those that start with what was typed,
/// without regard to case: all of them, in their order, each behind its folder as it was
/// typed, and with a separator behind where it is a folder.
pub proof fn lemma_names_are_offered(plan: CompletionPlan, entries: Seq<(String, bool)>, n: int)
    requires
        0 <= n <= entries.len(),
    ensures
        all_offered(plan, entries, n) == entries.take(n).filter(
            |x: (String, bool)| occurs_at(lower(x.0@), lower(plan.name_prefix@), 0),
        ).map_values(
            |x: (String, bool)|
                (match plan.shown_parent {
                    Some(p) => p@ + seq![plan.separator],
                    None => Seq::empty(),
                }) + x.0@ + (if x.1 {
                    seq![plan.separator]
                } else {
                    Seq::empty()
                }),
        ),
    decreases n,
{
    let keep = |x: (String, bool)| occurs_at(lower(x.0@), lower(plan.name_prefix@), 0);
    let text = |x: (String, bool)|
        (match plan.shown_parent {
            Some(p) => p@ + seq![plan.separator],
            None => Seq::empty(),
        }) + x.0@ + (if x.1 {
            seq![plan.separator]
        } else {
            Seq::empty()
        });
    reveal(Seq::filter);
    if n > 0 {
        lemma_names_are_offered(plan, entries, n - 1);
        let x = entries[n - 1];
        assert(entries.take(n).drop_last() =~= entries.take(n - 1));
        assert(entries.take(n).last() == x);
        let before = entries.take(n - 1).filter(keep);
        assert(before.push(x).map_values(text) =~= before.map_values(text).push(text(x)));
        assert(offered(plan, x.0@, x.1) =~= text(x));
    } else {
        assert(entries.take(0).filter(keep).map_values(text) =~= Seq::empty());
    }
}

/// Of the output of a command all characters are shown but the control characters other
/// than line breaks and tabs.
pub proof fn lemma_output_is_shown(s: Seq<char>)
    ensures
        sanitized(s) == s.filter(
            |c: char| c == '\n' || c == '\t' || !(c <= '\u{1f}' || '\u{7f}' <= c <= '\u{9f}'),
        ),
{
    let a = |c: char| printable(c, control(c));
    let b = |c: char| c == '\n' || c == '\t' || !(c <= '\u{1f}' || '\u{7f}' <= c <= '\u{9f}');
    assert(a =~= b);
}

/// The separators at the end of a typed folder do not count, and a folder that is nothing
/// else is the root.
pub proof fn lemma_typed_folder(folder: Seq<char>, name: Option<Seq<char>>, above: Option<Seq<char>>)
    requires
        folder.len() > 0 ==> folder.last() != '/',
    ensures
        parent_and_prefix(folder + seq!['/'], '/', above, name) == (
            Some(
                if folder.len() > 0 {
                    folder
                } else {
                    seq!['/']
                },
            ),
            Seq::<char>::empty(),
        ),
{
    let raw = folder + seq!['/'];
    assert(raw.last() == '/');
    assert(raw.drop_last() =~= folder);
    assert(without_separators(folder, '/') == folder);
    if folder.len() == 0 {
        assert(folder =~= Seq::<char>::empty());
    }
}

} // verus!
