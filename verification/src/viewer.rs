//! Opening documents and addresses, in the program or in others.

use crate::model::{App, AppMode, PdfState};
use crate::paths::{name_shown, shown_name};
use crate::strings::{
    ascii_lowered, concat, contains_text, decimal, occurs, occurs_at, opt_text,
    same_ignoring_ascii_case, starts_with, texts, to_decimal,
};
use crate::chars::{digit, is_digit, is_whitespace, whitespace};
use crate::citation::{find_at, space_from};
use crate::terminal_input::{parse_viewer_command, spaces_of, split_command, Escapes};
use crate::terminal_input::CommandError;
use crate::text::{from_range, to_chars};
use vstd::prelude::*;

verus! {

/// The system that the program runs on.
#[derive(Clone, Copy, Debug, PartialEq, Eq, Structural)]
pub enum Platform {
    MacOs,
    Windows,
    Other,
}

/// The command that opens documents where none is configured.
pub open spec fn default_viewer(platform: Platform) -> Seq<char> {
    match platform {
        Platform::MacOs => "open"@,
        Platform::Windows => "cmd /C start msedge \"\""@,
        Platform::Other => "xdg-open"@,
    }
}

/// The command that opens documents where none is configured.
pub fn default_pdf_viewer(platform: Platform) -> (r: String)
    ensures
        r@ == default_viewer(platform),
{
    match platform {
        Platform::MacOs => "open".to_owned(),
        Platform::Windows => "cmd /C start msedge \"\"".to_owned(),
        Platform::Other => "xdg-open".to_owned(),
    }
}

/// `s` with every `p` in it replaced by `q`, from the left.
pub open spec fn replaced(s: Seq<char>, p: Seq<char>, q: Seq<char>) -> Seq<char>
    decreases s.len(),
{
    let i = find_at(s, p, 0);
    if i < 0 || p.len() == 0 || i + p.len() > s.len() {
        s
    } else {
        s.take(i) + q + replaced(s.skip(i + p.len()), p, q)
    }
}

fn replace(s: &str, p: &str, q: &str) -> (r: String)
    requires
        p@.len() > 0,
    ensures
        r@ == replaced(s@, p@, q@),
    decreases s@.len(),
{
    let chars = to_chars(s);
    let pat = to_chars(p);
    let n: usize = chars.len();
    match crate::citation::find(&chars, &pat) {
        Some(i) => {
            assert(i + pat@.len() <= n);
            let from: usize = i + pat.len();
            assert(chars@.subrange(0, i as int) =~= chars@.take(i as int));
            assert(chars@.subrange(from as int, n as int) =~= chars@.skip(from as int));
            let head = from_range(&chars, 0, i);
            let tail = from_range(&chars, from, n);
            let rest = replace(tail.as_str(), p, q);
            let a = concat(head.as_str(), q);
            concat(a.as_str(), rest.as_str())
        },
        None => s.to_owned(),
    }
}

/// A program to be started, and its arguments.
#[derive(Debug)]
pub struct ViewerCommand {
    pub program: String,
    pub args: Vec<String>,
}

/// Whether an argument has a place for the path.
pub open spec fn has_place(args: Seq<Seq<char>>) -> bool {
    exists|i: int| 0 <= i < args.len() && occurs(#[trigger] args[i], "{path}"@)
}

/// The arguments with the path in its places.
pub open spec fn path_placed(args: Seq<Seq<char>>, path: Seq<char>) -> Seq<Seq<char>> {
    if has_place(args) {
        Seq::new(args.len(), |i: int| replaced(args[i], "{path}"@, path))
    } else {
        args
    }
}

/// The program and its arguments: the path goes behind the others unless it has
/// its places. On Windows `start` is a word of the shell, which takes the first
/// argument for a title.
pub open spec fn viewer_command(args: Seq<Seq<char>>, path: Seq<char>, platform: Platform) -> (Seq<
    char,
>, Seq<Seq<char>>) {
    let argv = if args.len() == 0 {
        seq![default_viewer(platform)]
    } else {
        args
    };
    let all = path_placed(argv, path);
    let rest = all.drop_first();
    let (program, tail) = if platform == Platform::Windows && ascii_lowered(all[0])
        == ascii_lowered("start"@) {
        (
            "cmd"@,
            if rest.len() == 0 {
                seq!["/C"@, all[0], ""@]
            } else {
                seq!["/C"@, all[0]] + rest
            },
        )
    } else {
        (all[0], rest)
    };
    (
        program,
        if has_place(argv) {
            tail
        } else {
            tail.push(path)
        },
    )
}

fn holds_place(args: &Vec<String>) -> (r: bool)
    ensures
        r == has_place(texts(args@)),
{
    let mut i: usize = 0;
    while i < args.len()
        invariant
            i <= args@.len(),
            forall|j: int| 0 <= j < i ==> !occurs(#[trigger] texts(args@)[j], "{path}"@),
        decreases args@.len() - i,
    {
        if contains_text(args[i].as_str(), "{path}") {
            assert(occurs(texts(args@)[i as int], "{path}"@));
            return true;
        }
        i = i + 1;
    }
    false
}

/// The program and arguments that open a document, from the split command of the
/// configuration.
pub fn build_viewer_command(args: Vec<String>, path: &str, platform: Platform) -> (r: ViewerCommand)
    ensures
        (r.program@, texts(r.args@)) == viewer_command(texts(args@), path@, platform),
{
    proof {
        reveal_strlit("{path}");
    }
    let ghost given = texts(args@);
    let mut argv = args;
    if argv.len() == 0 {
        argv.push(default_pdf_viewer(platform));
        assert(texts(argv@) =~= seq![default_viewer(platform)]);
    }
    let ghost first = texts(argv@);
    let places: bool = holds_place(&argv);
    let mut all: Vec<String> = Vec::new();
    let mut i: usize = 0;
    while i < argv.len()
        invariant
            i <= argv@.len(),
            "{path}"@.len() == 6,
            first == texts(argv@),
            places == has_place(first),
            all@.len() == i,
            forall|j: int|
                0 <= j < i ==> (#[trigger] all@[j])@ == path_placed(first, path@)[j],
        decreases argv@.len() - i,
    {
        if places {
            all.push(replace(argv[i].as_str(), "{path}", path));
        } else {
            all.push(argv[i].clone());
        }
        i = i + 1;
    }
    assert(texts(all@) =~= path_placed(first, path@));
    let ghost placed = texts(all@);
    let mut program = all.remove(0);
    assert(texts(all@) =~= placed.drop_first());
    let mut out: Vec<String> = Vec::new();
    if matches!(platform, Platform::Windows) && same_ignoring_ascii_case(
        program.as_str(),
        "start",
    ) {
        out.push("/C".to_owned());
        out.push(program);
        if all.len() == 0 {
            out.push("".to_owned());
        }
        program = "cmd".to_owned();
        assert(texts(out@) =~= if all@.len() == 0 {
            seq!["/C"@, placed[0], ""@]
        } else {
            seq!["/C"@, placed[0]]
        });
    } else {
        assert(texts(out@) =~= Seq::empty());
    }
    let ghost head = texts(out@);
    let mut i: usize = 0;
    assert(head + texts(all@).take(0) =~= head);
    while i < all.len()
        invariant
            i <= all@.len(),
            texts(out@) == head + texts(all@).take(i as int),
        decreases all@.len() - i,
    {
        let ghost before = texts(out@);
        out.push(all[i].clone());
        assert(texts(out@) =~= before.push(all@[i as int]@));
        assert(texts(all@).take(i + 1) =~= texts(all@).take(i as int).push(all@[i as int]@));
        assert(texts(out@) =~= head + texts(all@).take(i + 1));
        i = i + 1;
    }
    assert(texts(all@).take(all@.len() as int) =~= texts(all@));
    proof {
        let tail = head + texts(all@);
        if platform == Platform::Windows && ascii_lowered(placed[0]) == ascii_lowered("start"@) {
            if all@.len() == 0 {
                assert(tail =~= seq!["/C"@, placed[0], ""@]);
            }
        } else {
            assert(tail =~= texts(all@));
        }
    }
    if !places {
        let ghost before = texts(out@);
        out.push(path.to_owned());
        assert(texts(out@) =~= before.push(path@));
    }
    ViewerCommand { program, args: out }
}

/// The program and arguments that open a document.
pub fn plan_viewer(viewer: &str, path: &str, platform: Platform) -> (r: Result<
    ViewerCommand,
    CommandError,
>)
    ensures
        match split_command(viewer@, spaces_of(viewer@), Escapes::Everything) {
            Ok(args) => r matches Ok(c) && (c.program@, texts(c.args@)) == viewer_command(
                args,
                path@,
                platform,
            ),
            Err(e) => r matches Err(f) && f == e,
        },
{
    match parse_viewer_command(viewer) {
        Ok(args) => Ok(build_viewer_command(args, path, platform)),
        Err(e) => Err(e),
    }
}

/// A path without the mark that Windows puts before canonical ones.
pub fn plain_path(path: &str, platform: Platform) -> (r: String)
    ensures
        r@ == (if platform == Platform::Windows && occurs_at(path@, "\\\\?\\"@, 0) {
            path@.skip(4)
        } else {
            path@
        }),
{
    proof {
        reveal_strlit("\\\\?\\");
    }
    if matches!(platform, Platform::Windows) && starts_with(path, "\\\\?\\") {
        let s = to_chars(path);
        assert(s@.subrange(4, s@.len() as int) =~= s@.skip(4));
        return from_range(&s, 4, s.len());
    }
    path.to_owned()
}

/// Shows a document in the program, from its first page. A reading session is
/// timed from now on.
pub fn show_document(app: &mut App, path: String, pages: usize, session_id: Option<i64>, now: u64)
    ensures
        *final(app) == (App {
            mode: AppMode::PdfView,
            pdf: PdfState {
                path: Some(path),
                on_disk: true,
                page: 1,
                scroll_y: 0,
                page_pixel_h: 0,
                max_scroll_y: 0,
                total_pages: pages,
                ..old(app).pdf
            },
            session_id,
            session_start: Some(now),
            toast: final(app).toast,
            ..*old(app)
        }),
        opt_text(final(app).toast) == Some("Viewing PDF: "@ + name_shown(path@)),
{
    let name = shown_name(path.as_str());
    app.mode = AppMode::PdfView;
    app.pdf.path = Some(path);
    app.pdf.on_disk = true;
    app.pdf.page = 1;
    app.pdf.scroll_y = 0;
    app.pdf.page_pixel_h = 0;
    app.pdf.max_scroll_y = 0;
    app.pdf.total_pages = pages;
    app.session_id = session_id;
    app.session_start = Some(now);
    app.toast = Some(concat("Viewing PDF: ", name.as_str()));
}

/// What is known of a document that is to be opened.
#[derive(Debug)]
pub enum Opened {
    /// There is no such file.
    Missing,
    /// A program was started.
    Started,
    /// A program could not be started.
    Failed { program: String, error: String },
}

/// What the user is told of a document opened in another program.
pub open spec fn opened_message(path: Seq<char>, outcome: Opened) -> Seq<char> {
    match outcome {
        Opened::Missing => "PDF not found: "@ + path,
        Opened::Started => "Opened "@ + path,
        Opened::Failed { program, error } => "Could not open PDF with "@ + program@ + ": "@
            + error@,
    }
}

/// Tells the user what has become of a document opened in another program.
pub fn open_pdf(app: &mut App, path: &str, outcome: Opened)
    ensures
        crate::actions::told(*old(app), *final(app), opened_message(path@, outcome)),
{
    app.toast = Some(
        match outcome {
            Opened::Missing => concat("PDF not found: ", path),
            Opened::Started => concat("Opened ", path),
            Opened::Failed { program, error } => {
                let a = concat("Could not open PDF with ", program.as_str());
                let b = concat(a.as_str(), ": ");
                concat(b.as_str(), error.as_str())
            },
        },
    );
}

/// The program and arguments that open an address.
pub fn browser_command(url: &str, platform: Platform) -> (r: ViewerCommand)
    ensures
        match platform {
            Platform::MacOs => r.program@ == "open"@ && texts(r.args@) == seq![url@],
            Platform::Windows => r.program@ == "cmd"@ && texts(r.args@) == seq![
                "/C"@,
                "start"@,
                ""@,
                url@,
            ],
            Platform::Other => r.program@ == "xdg-open"@ && texts(r.args@) == seq![url@],
        },
{
    let mut args: Vec<String> = Vec::new();
    let program = match platform {
        Platform::MacOs => "open".to_owned(),
        Platform::Windows => {
            args.push("/C".to_owned());
            args.push("start".to_owned());
            args.push("".to_owned());
            "cmd".to_owned()
        },
        Platform::Other => "xdg-open".to_owned(),
    };
    args.push(url.to_owned());
    assert(texts(args@) =~= match platform {
        Platform::Windows => seq!["/C"@, "start"@, ""@, url@],
        _ => seq![url@],
    });
    ViewerCommand { program, args }
}

/// Tells the user whether an address was opened.
pub fn open_browser(app: &mut App, started: Result<(), String>)
    ensures
        crate::actions::told(
            *old(app),
            *final(app),
            match started {
                Ok(_) => "Opened paper in browser"@,
                Err(error) => "Could not open browser: "@ + error@,
            },
        ),
{
    app.toast = Some(
        match started {
            Ok(_) => "Opened paper in browser".to_owned(),
            Err(error) => concat("Could not open browser: ", error.as_str()),
        },
    );
}

/// Whether a text holds nothing but digits, and at least one.
pub open spec fn all_digits(s: Seq<char>) -> bool {
    s.len() > 0 && forall|i: int| 0 <= i < s.len() ==> digit(#[trigger] s[i])
}

/// The number that digits stand for.
pub open spec fn number_of(s: Seq<char>) -> nat
    decreases s.len(),
{
    if s.len() == 0 {
        0
    } else {
        10 * number_of(s.drop_last()) + (s.last() as nat - 48) as nat
    }
}

/// The number that a text stands for, with or without a plus sign, where it fits.
pub open spec fn parsed(s: Seq<char>) -> Option<nat> {
    let t = if s.len() > 0 && s[0] == '+' {
        s.drop_first()
    } else {
        s
    };
    if all_digits(t) && number_of(t) <= usize::MAX {
        Some(number_of(t))
    } else {
        None
    }
}

proof fn lemma_number_grows(s: Seq<char>, k: int)
    requires
        0 <= k <= s.len(),
        forall|i: int| 0 <= i < s.len() ==> digit(#[trigger] s[i]),
    ensures
        number_of(s.take(k)) <= number_of(s),
    decreases s.len() - k,
{
    if k < s.len() {
        lemma_number_grows(s, k + 1);
        assert(s.take(k + 1).drop_last() =~= s.take(k));
    } else {
        assert(s.take(k) =~= s);
    }
}

fn parse_number(s: &Vec<char>, from: usize, to: usize) -> (r: Option<usize>)
    requires
        from <= to <= s@.len(),
    ensures
        match parsed(s@.subrange(from as int, to as int)) {
            Some(n) => r matches Some(m) && m == n,
            None => r is None,
        },
{
    let ghost word = s@.subrange(from as int, to as int);
    let mut i: usize = from;
    if from < to && s[from] == '+' {
        i = from + 1;
    }
    let start: usize = i;
    let ghost t = s@.subrange(start as int, to as int);
    proof {
        if start > from {
            assert(word[0] == '+');
            assert(word.drop_first() =~= t);
        } else if from < to {
            assert(word[0] == s@[from as int]);
        }
    }
    if start == to {
        return None;
    }
    let mut n: usize = 0;
    assert(t.take(0) =~= Seq::empty());
    while i < to
        invariant
            from <= start <= i <= to <= s@.len(),
            start < to,
            t == s@.subrange(start as int, to as int),
            word == s@.subrange(from as int, to as int),
            parsed(word) == (if all_digits(t) && number_of(t) <= usize::MAX {
                Some(number_of(t))
            } else {
                None
            }),
            forall|j: int| 0 <= j < i - start ==> digit(#[trigger] t[j]),
            n == number_of(t.take(i - start)),
        decreases to - i,
    {
        let c: char = s[i];
        assert(t[i - start] == c);
        if !is_digit(c) {
            return None;
        }
        let d: usize = (c as u32 - 48) as usize;
        assert(t.take(i - start + 1).drop_last() =~= t.take(i - start));
        if n > (usize::MAX - d) / 10 {
            proof {
                if all_digits(t) {
                    lemma_number_grows(t, i - start + 1);
                }
            }
            return None;
        }
        n = n * 10 + d;
        i = i + 1;
    }
    assert(t.take(to - start) =~= t);
    Some(n)
}

/// End of the line that starts at `k`.
pub open spec fn break_from(s: Seq<char>, k: int) -> int
    decreases s.len() - k,
{
    if 0 <= k < s.len() && s[k] != '\n' {
        break_from(s, k + 1)
    } else {
        k
    }
}

/// The next character from `k` on that is no white space, or the end.
pub open spec fn word_from(s: Seq<char>, k: int) -> int
    decreases s.len() - k,
{
    if 0 <= k < s.len() && whitespace(s[k]) {
        word_from(s, k + 1)
    } else {
        k
    }
}

/// The second word of a line.
pub open spec fn second_word(line: Seq<char>) -> Seq<char> {
    let a = space_from(line, word_from(line, 0));
    let b = word_from(line, a);
    line.subrange(b, space_from(line, b))
}

/// The number of pages that a line gives.
pub open spec fn pages_in_line(line: Seq<char>) -> Option<nat> {
    if occurs_at(line, "Pages:"@, 0) {
        parsed(second_word(line))
    } else {
        None
    }
}

proof fn lemma_break_from(s: Seq<char>, k: int)
    requires
        0 <= k <= s.len(),
    ensures
        k <= break_from(s, k) <= s.len(),
        break_from(s, k) < s.len() ==> s[break_from(s, k)] == '\n',
    decreases s.len() - k,
{
    if k < s.len() && s[k] != '\n' {
        lemma_break_from(s, k + 1);
    }
}

/// The number of pages that the first line from `k` on that tells it gives, or 1.
pub open spec fn pages_from(s: Seq<char>, k: int) -> nat
    decreases s.len() + 1 - k,
    via pages_from_decreases
{
    if k < 0 || k >= s.len() {
        1
    } else {
        match pages_in_line(s.subrange(k, break_from(s, k))) {
            Some(n) => n,
            None => pages_from(s, break_from(s, k) + 1),
        }
    }
}

#[via_fn]
proof fn pages_from_decreases(s: Seq<char>, k: int) {
    if 0 <= k < s.len() {
        lemma_break_from(s, k);
    }
}

fn read_pages(line: &Vec<char>) -> (r: Option<usize>)
    ensures
        match pages_in_line(line@) {
            Some(n) => r matches Some(m) && m == n,
            None => r is None,
        },
{
    proof {
        reveal_strlit("Pages:");
    }
    let mark = to_chars("Pages:");
    if !crate::strings::matches_at(line, &mark, 0) {
        return None;
    }
    let n: usize = line.len();
    let mut a: usize = 0;
    while a < n && is_whitespace(line[a])
        invariant
            a <= n == line@.len(),
            word_from(line@, 0) == word_from(line@, a as int),
        decreases n - a,
    {
        a = a + 1;
    }
    let ghost w = a as int;
    while a < n && !is_whitespace(line[a])
        invariant
            a <= n == line@.len(),
            space_from(line@, w) == space_from(line@, a as int),
        decreases n - a,
    {
        a = a + 1;
    }
    let ghost e = a as int;
    let mut b: usize = a;
    while b < n && is_whitespace(line[b])
        invariant
            b <= n == line@.len(),
            word_from(line@, e) == word_from(line@, b as int),
        decreases n - b,
    {
        b = b + 1;
    }
    let mut c: usize = b;
    while c < n && !is_whitespace(line[c])
        invariant
            b <= c <= n == line@.len(),
            space_from(line@, b as int) == space_from(line@, c as int),
        decreases n - c,
    {
        c = c + 1;
    }
    parse_number(line, b, c)
}

/// The number of pages that the program `pdfinfo` reports, or 1 where it reports
/// none.
pub fn get_pdf_page_count(info: &str) -> (r: usize)
    ensures
        r == pages_from(info@, 0),
{
    let s = to_chars(info);
    let n: usize = s.len();
    let mut k: usize = 0;
    while k < n
        invariant
            k <= n == s@.len(),
            s@ == info@,
            pages_from(info@, 0) == pages_from(s@, k as int),
        decreases n - k,
    {
        let mut e: usize = k;
        while e < n && s[e] != '\n'
            invariant
                k <= e <= n == s@.len(),
                break_from(s@, k as int) == break_from(s@, e as int),
            decreases n - e,
        {
            e = e + 1;
        }
        let line = to_chars(from_range(&s, k, e).as_str());
        match read_pages(&line) {
            Some(pages) => return pages,
            None => {},
        }
        if e == n {
            assert(pages_from(s@, n + 1) == 1);
            return 1;
        }
        k = e + 1;
    }
    1
}

/// The arguments that make `pdftoppm` draw one page as wide as it will be shown.
pub open spec fn drawing_arguments(
    path: Seq<char>,
    page: usize,
    width: u32,
    prefix: Seq<char>,
) -> Seq<Seq<char>> {
    seq![
        "-singlefile"@,
        "-scale-to-x"@,
        decimal(width as nat),
        "-scale-to-y"@,
        "-1"@,
        "-f"@,
        decimal(page as nat),
        path,
        prefix,
    ]
}

/// The program and arguments that draw a page. The page is drawn as wide as it
/// will be shown, so that it need not be scaled again.
pub fn page_command(path: &str, page: usize, width: u32, prefix: &str) -> (r: ViewerCommand)
    ensures
        r.program@ == "pdftoppm"@,
        texts(r.args@) == drawing_arguments(path@, page, width, prefix@),
{
    let mut args: Vec<String> = Vec::new();
    args.push("-singlefile".to_owned());
    args.push("-scale-to-x".to_owned());
    args.push(to_decimal(width as u64));
    args.push("-scale-to-y".to_owned());
    args.push("-1".to_owned());
    args.push("-f".to_owned());
    args.push(to_decimal(page as u64));
    args.push(path.to_owned());
    args.push(prefix.to_owned());
    assert(texts(args@) =~= drawing_arguments(path@, page, width, prefix@));
    ViewerCommand { program: "pdftoppm".to_owned(), args }
}

// ---------------------------------------------------------------------------
// What holds of all commands and reports
// ---------------------------------------------------------------------------

/// A document is opened by the configured program: with the path behind its arguments
/// where none of them has a place for it.
pub proof fn lemma_path_goes_behind(args: Seq<Seq<char>>, path: Seq<char>, platform: Platform)
    requires
        args.len() > 0,
        forall|i: int| 0 <= i < args.len() ==> !occurs(#[trigger] args[i], "{path}"@),
        platform != Platform::Windows || ascii_lowered(args[0]) != ascii_lowered("start"@),
    ensures
        viewer_command(args, path, platform) == (
            args[0],
            args.subrange(1, args.len() as int) + seq![path],
        ),
{
    assert(args.drop_first().push(path) =~= args.subrange(1, args.len() as int) + seq![path]);
}

/// Where an argument has a place for the path, the path stands there and nowhere else:
/// the rest of that argument and the other arguments stay as they are.
pub proof fn lemma_path_takes_its_place(
    args: Seq<Seq<char>>,
    k: int,
    before: Seq<char>,
    behind: Seq<char>,
    path: Seq<char>,
    platform: Platform,
)
    requires
        0 <= k < args.len(),
        args[k] == before + "{path}"@ + behind,
        forall|i: int| 0 <= i < before.len() ==> #[trigger] before[i] != '{',
        forall|i: int| 0 <= i < behind.len() ==> #[trigger] behind[i] != '{',
        forall|i: int| 0 <= i < args.len() && i != k ==> !occurs(#[trigger] args[i], "{path}"@),
        platform != Platform::Windows,
    ensures
        ({
            let all = args.update(k, before + path + behind);
            viewer_command(args, path, platform) == (all[0], all.subrange(1, all.len() as int))
        }),
{
    reveal_strlit("{path}");
    let p = "{path}"@;
    let all = args.update(k, before + path + behind);
    let n = before.len() as int;
    let s = args[k];
    assert(s.subrange(n, n + 6) =~= p);
    assert(occurs_at(s, p, n));
    assert(has_place(args));
    assert forall|j: int| 0 <= j < n implies !occurs_at(s, p, j) by {
        if occurs_at(s, p, j) {
            assert(s.subrange(j, j + 6)[0] == s[j]);
            assert(s[j] == before[j]);
        }
    }
    crate::citation::lemma_find_first(s, p, n);
    assert(s.take(n) =~= before);
    assert(s.skip(n + 6) =~= behind);
    crate::citation::lemma_absent(behind, p, 0);
    crate::citation::lemma_find_none(behind, p);
    assert(replaced(behind, p, path) == behind);
    assert(replaced(s, p, path) == before + path + behind);
    assert forall|i: int| 0 <= i < args.len() implies #[trigger] path_placed(args, path)[i]
        == all[i] by {
        if i != k {
            assert forall|j: int| !occurs_at(args[i], p, j) by {
                if occurs_at(args[i], p, j) {
                    assert(occurs(args[i], p));
                }
            }
            crate::citation::lemma_find_none(args[i], p);
        }
    }
    assert(path_placed(args, path) =~= all);
    assert(all.drop_first() =~= all.subrange(1, all.len() as int));
}

/// Without a configured program the system opens the document.
pub proof fn lemma_system_opens_documents(path: Seq<char>)
    ensures
        viewer_command(Seq::empty(), path, Platform::MacOs) == ("open"@, seq![path]),
        viewer_command(Seq::empty(), path, Platform::Other) == ("xdg-open"@, seq![path]),
{
    reveal_strlit("open");
    reveal_strlit("xdg-open");
    reveal_strlit("{path}");
    let p = "{path}"@;
    assert forall|a: Seq<char>| a == "open"@ || a == "xdg-open"@ implies !#[trigger] occurs(
        a,
        p,
    ) by {
        crate::citation::lemma_absent(a, p, 0);
    }
    assert(!occurs("open"@, p) && !occurs("xdg-open"@, p));
    assert(seq!["open"@].subrange(1, 1) + seq![path] =~= seq![path]);
    assert(seq!["xdg-open"@].subrange(1, 1) + seq![path] =~= seq![path]);
    lemma_path_goes_behind(seq!["open"@], path, Platform::MacOs);
    lemma_path_goes_behind(seq!["xdg-open"@], path, Platform::Other);
}

/// A number is read off its decimal digits again.
pub proof fn lemma_number_is_read(n: nat)
    ensures
        number_of(decimal(n)) == n,
        all_digits(decimal(n)),
        n <= usize::MAX ==> parsed(decimal(n)) == Some(n),
    decreases n,
{
    let s = decimal(n);
    if n < 10 {
        assert(s.drop_last() =~= Seq::empty());
        assert(number_of(s.drop_last()) == 0);
        assert(s.last() == crate::strings::digit_char(n as int));
    } else {
        lemma_number_is_read(n / 10);
        assert(s.drop_last() =~= decimal(n / 10));
        assert forall|i: int| 0 <= i < s.len() implies digit(#[trigger] s[i]) by {
            if i < s.len() - 1 {
                assert(s[i] == decimal(n / 10)[i]);
            }
        }
    }
    assert(s[0] != '+') by {
        assert(digit(s[0]));
    }
}

/// The number of pages is the one that `pdfinfo` reports behind `Pages:`, on the first
/// line that starts so.
pub proof fn lemma_pages_are_read(before: Seq<char>, spaces: Seq<char>, n: nat, behind: Seq<char>)
    requires
        n <= usize::MAX,
        before.len() > 0 ==> before.last() == '\n',
        forall|i: int| 0 <= i < before.len() ==> #[trigger] before[i] != 'P',
        forall|i: int| 0 <= i < spaces.len() ==> #[trigger] spaces[i] == ' ',
        spaces.len() > 0,
        behind.len() > 0 ==> behind[0] == '\n',
    ensures
        pages_from(before + ("Pages:"@ + spaces + decimal(n) + behind), 0) == n,
{
    reveal_strlit("Pages:");
    let line = "Pages:"@ + spaces + decimal(n);
    let rest = line + behind;
    let s = before + rest;
    assert("Pages:"@ + spaces + decimal(n) + behind =~= rest);
    lemma_number_is_read(n);
    let a = 6int;
    let b = 6 + spaces.len();
    let e = line.len() as int;
    assert forall|i: int| 0 <= i < e implies #[trigger] line[i] != '\n' by {
        if i < 6 {
            assert(line[i] == "Pages:"@[i]);
        } else if i < b {
            assert(line[i] == spaces[i - 6]);
        } else {
            assert(digit(decimal(n)[i - b]));
            assert(line[i] == decimal(n)[i - b]);
        }
    }
    assert(pages_in_line(line) == Some(n)) by {
        assert(line.subrange(0, 6) =~= "Pages:"@);
        assert(line[0] == 'P');
        assert(word_from(line, 0) == 0);
        assert forall|i: int| 0 <= i < 6 implies !whitespace(#[trigger] line[i]) by {
            assert(line[i] == "Pages:"@[i]);
        }
        assert(line[6] == spaces[0]);
        crate::citation::lemma_space_from(line, 0, 6);
        assert forall|i: int| 6 <= i < b implies whitespace(#[trigger] line[i]) by {
            assert(line[i] == spaces[i - 6]);
        }
        assert(decimal(n).len() > 0);
        assert forall|i: int| b <= i < e implies !whitespace(#[trigger] line[i]) by {
            assert(line[i] == decimal(n)[i - b]);
            assert(digit(decimal(n)[i - b]));
        }
        lemma_word_from(line, 6, b as int);
        crate::citation::lemma_space_from(line, b as int, e);
        assert(line.subrange(b as int, e) =~= decimal(n));
    }
    lemma_pages_before(before, rest, 0);
    let m = before.len() as int;
    lemma_break(s, m, m + e, rest, before);
    assert(s.subrange(m, m + e) =~= line);
}

proof fn lemma_word_from(s: Seq<char>, k: int, e: int)
    requires
        0 <= k <= e < s.len(),
        forall|i: int| k <= i < e ==> whitespace(#[trigger] s[i]),
        !whitespace(s[e]),
    ensures
        word_from(s, k) == e,
    decreases e - k,
{
    if k < e {
        lemma_word_from(s, k + 1, e);
    }
}

proof fn lemma_break(s: Seq<char>, k: int, e: int, rest: Seq<char>, before: Seq<char>)
    requires
        s == before + rest,
        before.len() <= k <= e <= s.len(),
        forall|i: int| k - before.len() <= i < e - before.len() ==> #[trigger] rest[i] != '\n',
        e < s.len() ==> rest[e - before.len()] == '\n',
    ensures
        break_from(s, k) == e,
    decreases e - k,
{
    if k < e {
        assert(s[k] == rest[k - before.len()]);
        lemma_break(s, k + 1, e, rest, before);
    } else if e < s.len() {
        assert(s[e] == rest[e - before.len()]);
    }
}

/// Lines that do not tell the number of pages are passed over.
proof fn lemma_pages_before(before: Seq<char>, rest: Seq<char>, k: int)
    requires
        before.len() > 0 ==> before.last() == '\n',
        forall|i: int| 0 <= i < before.len() ==> #[trigger] before[i] != 'P',
        0 <= k <= before.len(),
        rest.len() > 0,
    ensures
        pages_from(before + rest, k) == pages_from(before + rest, before.len() as int),
    decreases before.len() - k,
{
    let s = before + rest;
    if k < before.len() {
        lemma_break_inside(before, rest, k);
        let e = break_from(s, k);
        let line = s.subrange(k, e);
        assert(pages_in_line(line) is None) by {
            if occurs_at(line, "Pages:"@, 0) {
                reveal_strlit("Pages:");
                assert(line.subrange(0, 6)[0] == line[0]);
                assert(line[0] == before[k]);
            }
        }
        lemma_pages_before(before, rest, e + 1);
    }
}

proof fn lemma_break_inside(before: Seq<char>, rest: Seq<char>, k: int)
    requires
        0 <= k < before.len(),
        before.last() == '\n',
    ensures
        k <= break_from(before + rest, k) < before.len(),
    decreases before.len() - k,
{
    let s = before + rest;
    assert(s[k] == before[k]);
    if before[k] != '\n' {
        lemma_break_inside(before, rest, k + 1);
    }
}

/// A text is no number unless it is made of digits, with a plus sign before them at most.
pub proof fn lemma_other_texts_are_no_number(s: Seq<char>, i: int)
    ensures
        parsed(Seq::empty()) is None,
        parsed(seq!['+']) is None,
        0 <= i < s.len() && !('0' <= s[i] <= '9') && !(i == 0 && s[0] == '+') ==> parsed(s) is None,
        parsed(s) is Some && s[0] != '+' ==> parsed(seq!['+'] + s) == parsed(s),
{
    assert(seq!['+'].drop_first() =~= Seq::<char>::empty());
    assert((seq!['+'] + s).drop_first() =~= s);
    if 0 <= i < s.len() && !('0' <= s[i] <= '9') && !(i == 0 && s[0] == '+') {
        let t = if s[0] == '+' {
            s.drop_first()
        } else {
            s
        };
        let j = if s[0] == '+' {
            i - 1
        } else {
            i
        };
        assert(t[j] == s[i]);
        assert(!digit(t[j]));
    }
}

} // verus!
