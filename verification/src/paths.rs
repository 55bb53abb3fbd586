//! Paths whose components are separated by slashes.

use crate::strings::{
    ascii_lowered, concat, join, joined, opt_text, same_ignoring_ascii_case, same_text, texts,
    trim, trimmed,
};
use crate::text::{from_range, push_char, to_chars};
use vstd::prelude::*;

verus! {

/// Position behind the last slash in the first `k` characters of `s`.
pub open spec fn behind_slash(s: Seq<char>, k: int) -> int
    decreases k,
{
    if k <= 0 {
        0
    } else if s[k - 1] == '/' {
        k
    } else {
        behind_slash(s, k - 1)
    }
}

/// A path without what changes nothing at its end: slashes, and components that are
/// a single dot. The root stays, and so does a dot that the path starts with.
pub open spec fn bare(path: Seq<char>) -> Seq<char>
    decreases path.len(),
{
    let n = path.len();
    if n > 1 && (path[n - 1] == '/' || (path[n - 1] == '.' && path[n - 2] == '/')) {
        bare(path.drop_last())
    } else {
        path
    }
}

/// What stands behind the last slash of a text.
pub open spec fn last_part(s: Seq<char>) -> Seq<char> {
    s.skip(behind_slash(s, s.len() as int))
}

/// The last component of a path, if it names something: neither the root nor the
/// same folder nor the one above.
pub open spec fn file_name(path: Seq<char>) -> Option<Seq<char>> {
    let name = last_part(bare(path));
    if name.len() == 0 || name == seq!['.'] || name == seq!['.', '.'] {
        None
    } else {
        Some(name)
    }
}

/// The last component of a path, or nothing where it names nothing.
pub open spec fn name_shown(path: Seq<char>) -> Seq<char> {
    match file_name(path) {
        Some(name) => name,
        None => Seq::empty(),
    }
}

/// Position of the last dot in the first `k` characters of `s`, or -1.
pub open spec fn last_dot(s: Seq<char>, k: int) -> int
    decreases k,
{
    if k <= 0 {
        -1
    } else if s[k - 1] == '.' {
        k - 1
    } else {
        last_dot(s, k - 1)
    }
}

/// What stands behind the last dot of the file name, unless that dot is its
/// first character.
pub open spec fn extension(path: Seq<char>) -> Option<Seq<char>> {
    match file_name(path) {
        Some(name) => {
            let dot = last_dot(name, name.len() as int);
            if dot > 0 {
                Some(name.skip(dot + 1))
            } else {
                None
            }
        },
        None => None,
    }
}

pub(crate) proof fn lemma_behind_slash(s: Seq<char>, k: int)
    requires
        0 <= k,
    ensures
        0 <= behind_slash(s, k) <= k,
    decreases k,
{
    if k > 0 && s[k - 1] != '/' {
        lemma_behind_slash(s, k - 1);
    }
}

/// What stands behind the last slash of a text.
pub fn last_part_of(text: &str) -> (r: String)
    ensures
        r@ == last_part(text@),
{
    let s = to_chars(text);
    let b: usize = find_behind_slash(&s, s.len());
    assert(s@.take(s@.len() as int) =~= s@);
    assert(s@.subrange(b as int, s@.len() as int) =~= s@.skip(b as int));
    from_range(&s, b, s.len())
}

fn find_behind_slash(s: &Vec<char>, n: usize) -> (b: usize)
    requires
        n <= s@.len(),
    ensures
        b <= n,
        b == behind_slash(s@.take(n as int), n as int),
{
    let ghost p = s@.take(n as int);
    let mut b: usize = n;
    while b > 0 && s[b - 1] != '/'
        invariant
            b <= n <= s@.len(),
            p == s@.take(n as int),
            behind_slash(p, n as int) == behind_slash(p, b as int),
        decreases b,
    {
        b = b - 1;
    }
    b
}

fn bare_len(s: &Vec<char>, n: usize) -> (r: usize)
    requires
        n <= s@.len(),
    ensures
        r <= n,
        s@.take(r as int) == bare(s@.take(n as int)),
{
    let mut k: usize = n;
    while k > 1 && (s[k - 1] == '/' || (s[k - 1] == '.' && s[k - 2] == '/'))
        invariant
            k <= n <= s@.len(),
            bare(s@.take(n as int)) == bare(s@.take(k as int)),
        decreases k,
    {
        assert(s@.take(k as int).drop_last() =~= s@.take(k - 1));
        k = k - 1;
    }
    k
}

/// The last component of a path, if it names something.
pub fn file_name_of(path: &str) -> (r: Option<String>)
    ensures
        opt_text(r) == file_name(path@),
{
    let s = to_chars(path);
    assert(s@.take(s@.len() as int) =~= s@);
    let n: usize = bare_len(&s, s.len());
    let b: usize = find_behind_slash(&s, n);
    let name = from_range(&s, b, n);
    proof {
        assert(s@.subrange(b as int, n as int) =~= last_part(s@.take(n as int)));
        if n - b == 1 && s@[b as int] == '.' {
            assert(name@ =~= seq!['.']);
        } else if n - b == 2 && s@[b as int] == '.' && s@[b + 1] == '.' {
            assert(name@ =~= seq!['.', '.']);
        } else if n > b {
            assert(name@[0] == s@[b as int]);
            if n - b == 2 {
                assert(name@[1] == s@[b + 1]);
            }
        }
    }
    if n == b || (n - b == 1 && s[b] == '.') || (n - b == 2 && s[b] == '.' && s[b + 1] == '.') {
        None
    } else {
        Some(name)
    }
}

/// The last component of a path, or nothing where it names nothing.
pub fn shown_name(path: &str) -> (r: String)
    ensures
        r@ == name_shown(path@),
{
    match file_name_of(path) {
        Some(name) => name,
        None => String::new(),
    }
}

fn find_last_dot(s: &Vec<char>) -> (k: usize)
    ensures
        k <= s@.len(),
        k == last_dot(s@, s@.len() as int) + 1,
{
    let mut k: usize = s.len();
    while k > 0 && s[k - 1] != '.'
        invariant
            k <= s@.len(),
            last_dot(s@, s@.len() as int) == last_dot(s@, k as int),
        decreases k,
    {
        k = k - 1;
    }
    k
}

/// What stands behind the last dot of the file name.
pub fn extension_of(path: &str) -> (r: Option<String>)
    ensures
        opt_text(r) == extension(path@),
{
    match file_name_of(path) {
        Some(name) => {
            let s = to_chars(name.as_str());
            let k: usize = find_last_dot(&s);
            if k <= 1 {
                return None;
            }
            assert(s@.subrange(k as int, s@.len() as int) =~= s@.skip(k as int));
            Some(from_range(&s, k, s.len()))
        },
        None => None,
    }
}

/// Whether the extension of a path is `ext`, without regard to the case of
/// ASCII letters.
pub open spec fn has_extension(path: Seq<char>, ext: Seq<char>) -> bool {
    extension(path) matches Some(e) && ascii_lowered(e) == ascii_lowered(ext)
}

/// Whether the extension of a path is `ext`, without regard to the case of
/// ASCII letters.
pub fn extension_is(path: &str, ext: &str) -> (r: bool)
    ensures
        r == has_extension(path@, ext@),
{
    match extension_of(path) {
        Some(e) => same_ignoring_ascii_case(e.as_str(), ext),
        None => false,
    }
}

/// Whether a file holds text that a project is made of.
pub open spec fn text_file(path: Seq<char>) -> bool {
    extension(path) matches Some(e) && (e == "tex"@ || e == "bib"@ || e == "sty"@ || e == "cls"@
        || e == "md"@ || e == "txt"@)
}

/// Whether a file holds text that a project is made of.
pub fn is_project_text_file(path: &str) -> (r: bool)
    ensures
        r == text_file(path@),
{
    match extension_of(path) {
        Some(e) => {
            let s: &str = e.as_str();
            same_text(s, "tex") || same_text(s, "bib") || same_text(s, "sty") || same_text(s, "cls")
                || same_text(s, "md") || same_text(s, "txt")
        },
        None => false,
    }
}

/// Whether an image format belongs to a file extension, without regard to the
/// case of ASCII letters.
pub open spec fn image_extension(ext: Seq<char>) -> bool {
    let e = ascii_lowered(ext);
    ||| e == "avif"@ || e == "jpg"@ || e == "jpeg"@ || e == "jfif"@ || e == "png"@ || e == "apng"@
    ||| e == "gif"@ || e == "webp"@ || e == "tif"@ || e == "tiff"@ || e == "tga"@ || e == "dds"@
    ||| e == "bmp"@ || e == "ico"@ || e == "hdr"@ || e == "exr"@ || e == "pbm"@ || e == "pam"@
    ||| e == "ppm"@ || e == "pgm"@ || e == "pnm"@ || e == "ff"@ || e == "qoi"@
}

/// `image::ImageFormat::from_extension`: answers with a format for exactly the
/// extensions that [`image_extension`] lists.
#[verifier::external_body]
fn is_image_extension(ext: &str) -> (r: bool)
    ensures
        r == image_extension(ext@),
{
    image::ImageFormat::from_extension(ext).is_some()
}

/// Whether the file tree of a project shows a file.
pub open spec fn tree_file(path: Seq<char>) -> bool {
    text_file(path) || (extension(path) matches Some(e) && image_extension(e))
}

/// Whether the file tree of a project shows a file: its texts and its images.
pub fn is_project_tree_file(path: &str) -> (r: bool)
    ensures
        r == tree_file(path@),
{
    if is_project_text_file(path) {
        return true;
    }
    match extension_of(path) {
        Some(e) => is_image_extension(e.as_str()),
        None => false,
    }
}

/// `s` without the slashes at its end.
pub open spec fn without_slashes(s: Seq<char>) -> Seq<char>
    decreases s.len(),
{
    if s.len() > 0 && s.last() == '/' {
        without_slashes(s.drop_last())
    } else {
        s
    }
}

/// Whether `from..to` is a whole component of `s`.
pub open spec fn component_at(s: Seq<char>, from: int, to: int) -> bool {
    &&& 0 <= from <= to <= s.len()
    &&& from == 0 || s[from - 1] == '/'
    &&& to == s.len() || s[to] == '/'
    &&& forall|i: int| from <= i < to ==> s[i] != '/'
}

/// Whether a component of `s` leads to the folder above.
pub open spec fn climbs(s: Seq<char>) -> bool {
    exists|from: int|
        #[trigger] component_at(s, from, from + 2) && s[from] == '.' && s[from + 1] == '.'
}

/// Whether a path names something below the folder it starts from.
pub open spec fn stays_inside(s: Seq<char>) -> bool {
    &&& s.len() > 0
    &&& s[0] != '/'
    &&& !climbs(s)
    &&& !component_at(s, 0, 1) || s[0] != '.'
}

/// A file or a folder to be created in a project.
#[derive(Debug)]
pub struct NewEntry {
    pub relative: String,
    pub is_directory: bool,
}

/// Checks the name of a new entry of a project: a relative path that stays
/// inside the project. A slash at its end asks for a folder.
pub fn plan_project_entry(name: &str) -> (r: Result<NewEntry, String>)
    ensures
        ({
            let typed = trimmed(name@);
            let path = without_slashes(typed);
            match r {
                Ok(entry) => stays_inside(path) && entry.relative@ == path && entry.is_directory
                    == (typed.len() > 0 && typed.last() == '/'),
                Err(e) => !stays_inside(path) && e@
                    == "enter a relative file path inside the project"@,
            }
        }),
{
    let typed = trim(name);
    let s = to_chars(typed.as_str());
    let is_directory: bool = s.len() > 0 && s[s.len() - 1] == '/';
    let mut n: usize = s.len();
    assert(s@.take(n as int) =~= s@);
    while n > 0 && s[n - 1] == '/'
        invariant
            n <= s@.len(),
            without_slashes(s@) == without_slashes(s@.take(n as int)),
        decreases n,
    {
        assert(s@.take(n as int).drop_last() =~= s@.take(n - 1));
        n = n - 1;
    }
    let relative = from_range(&s, 0, n);
    assert(s@.subrange(0, n as int) =~= s@.take(n as int));
    let p = to_chars(relative.as_str());
    if n == 0 || p[0] == '/' || climbs_out(&p) || (p[0] == '.' && (n == 1 || p[1] == '/')) {
        Err("enter a relative file path inside the project".to_owned())
    } else {
        Ok(NewEntry { relative, is_directory })
    }
}

fn climbs_out(s: &Vec<char>) -> (r: bool)
    ensures
        r == climbs(s@),
{
    let n: usize = s.len();
    let mut i: usize = 0;
    while i < n
        invariant
            i <= n == s@.len(),
            forall|from: int|
                0 <= from < i ==> !(#[trigger] component_at(s@, from, from + 2) && s@[from] == '.'
                    && s@[from + 1] == '.'),
        decreases n - i,
    {
        if (i == 0 || s[i - 1] == '/') && n - i >= 2 && s[i] == '.' && s[i + 1] == '.' && (n - i
            == 2 || s[i + 2] == '/') {
            assert(component_at(s@, i as int, i + 2));
            return true;
        }
        i = i + 1;
    }
    assert forall|from: int|
        !(#[trigger] component_at(s@, from, from + 2) && s@[from] == '.' && s@[from + 1]
            == '.') by {}
    false
}

/// Whether a path starts at the root.
pub open spec fn absolute(s: Seq<char>) -> bool {
    s.len() > 0 && s[0] == '/'
}

/// The components of a path. Those that change nothing are left out: empty ones
/// and, behind the first, a single dot.
pub open spec fn components(s: Seq<char>) -> Seq<Seq<char>>
    decreases s.len(),
    via components_decreases
{
    let b = behind_slash(s, s.len() as int);
    let last = s.skip(b);
    let rest = if b <= 0 {
        Seq::empty()
    } else {
        components(s.take(b - 1))
    };
    if last.len() == 0 || (b > 0 && last == seq!['.']) {
        rest
    } else {
        rest.push(last)
    }
}

#[via_fn]
proof fn components_decreases(s: Seq<char>) {
    lemma_behind_slash(s, s.len() as int);
}

/// Whether a path is `dir` or lies below it.
pub open spec fn inside(path: Seq<char>, dir: Seq<char>) -> bool {
    &&& absolute(path) == absolute(dir)
    &&& components(dir).len() <= components(path).len()
    &&& components(path).take(components(dir).len() as int) == components(dir)
}

/// A path below a folder, or `name` itself where it starts at the root.
pub open spec fn joined_path(dir: Seq<char>, name: Seq<char>) -> Seq<char> {
    if absolute(name) {
        name
    } else if dir.len() == 0 || dir.last() == '/' {
        dir + name
    } else {
        dir.push('/') + name
    }
}

/// The folder that holds the last component of a path. The root lies in none.
pub open spec fn parent(path: Seq<char>) -> Option<Seq<char>> {
    let p = bare(path);
    if p.len() == 0 || p == seq!['/'] {
        None
    } else {
        Some(bare(p.take(behind_slash(p, p.len() as int))))
    }
}

/// A path with another name in place of its last component, or behind it where that
/// names nothing.
pub open spec fn with_file_name(path: Seq<char>, name: Seq<char>) -> Seq<char> {
    joined_path(
        match (file_name(path), parent(path)) {
            (Some(_), Some(dir)) => dir,
            _ => path,
        },
        name,
    )
}

/// A path whose file name has another extension, or none where `ext` is empty.
pub open spec fn with_extension(path: Seq<char>, ext: Seq<char>) -> Seq<char> {
    match file_name(path) {
        None => path,
        Some(name) => {
            let p = bare(path);
            let dot = last_dot(name, name.len() as int);
            let stem = if dot > 0 {
                p.take(p.len() - name.len() + dot)
            } else {
                p
            };
            if ext.len() == 0 {
                stem
            } else {
                stem.push('.') + ext
            }
        },
    }
}

/// What tells two paths apart: whether they start at the root, and their
/// components.
#[verifier::ext_equal]
pub struct PathKey {
    pub absolute: bool,
    pub components: Seq<Seq<char>>,
}

/// What tells a path apart from others.
pub open spec fn path_key(path: Seq<char>) -> PathKey {
    PathKey { absolute: absolute(path), components: components(path) }
}

/// What tells a path apart, where there is one.
pub open spec fn opt_key(path: Option<String>) -> Option<PathKey> {
    match path {
        Some(p) => Some(path_key(p@)),
        None => None,
    }
}

/// Whether two paths are the same but for how they are written.
pub fn same_path(a: &str, b: &str) -> (r: bool)
    ensures
        r == (path_key(a@) == path_key(b@)),
{
    let r: bool = is_inside(a, b) && is_inside(b, a);
    proof {
        let ca = components(a@);
        let cb = components(b@);
        assert(ca.take(ca.len() as int) =~= ca);
        assert(cb.take(cb.len() as int) =~= cb);
        if r {
            assert(ca =~= cb);
        }
    }
    r
}

/// What of a path lies below the folder `dir` that it is inside of.
pub open spec fn below(path: Seq<char>, dir: Seq<char>) -> Seq<char> {
    joined(components(path).skip(components(dir).len() as int), "/"@)
}

fn split_components(s: &Vec<char>, n: usize) -> (r: Vec<String>)
    requires
        n <= s@.len(),
    ensures
        texts(r@) == components(s@.take(n as int)),
    decreases n,
{
    let ghost p = s@.take(n as int);
    let b: usize = find_behind_slash(s, n);
    proof {
        assert(p.skip(b as int) =~= s@.subrange(b as int, n as int));
        if b > 0 {
            assert(p.take(b - 1) =~= s@.take(b - 1));
        }
    }
    let last = from_range(s, b, n);
    let mut r: Vec<String> = Vec::new();
    if b > 0 {
        r = split_components(s, b - 1);
    }
    assert(b == 0 ==> texts(r@) =~= Seq::empty());
    let keep: bool = n > b && !(b > 0 && n - b == 1 && s[b] == '.');
    proof {
        if n - b == 1 && s@[b as int] == '.' {
            assert(last@ =~= seq!['.']);
        } else if n > b {
            assert(last@[0] == s@[b as int]);
        }
    }
    if keep {
        let ghost before = r@;
        r.push(last);
        assert(texts(r@) =~= texts(before).push(last@));
    }
    r
}

fn components_of(path: &str) -> (r: Vec<String>)
    ensures
        texts(r@) == components(path@),
{
    let s = to_chars(path);
    assert(s@.take(s@.len() as int) =~= s@);
    split_components(&s, s.len())
}

fn is_absolute(path: &str) -> (r: bool)
    ensures
        r == absolute(path@),
{
    let s = to_chars(path);
    s.len() > 0 && s[0] == '/'
}

/// Whether a path is `dir` or lies below it.
pub fn is_inside(path: &str, dir: &str) -> (r: bool)
    ensures
        r == inside(path@, dir@),
{
    if is_absolute(path) != is_absolute(dir) {
        return false;
    }
    let p = components_of(path);
    let d = components_of(dir);
    let ghost tp = texts(p@);
    let ghost td = texts(d@);
    if d.len() > p.len() {
        return false;
    }
    let mut i: usize = 0;
    while i < d.len()
        invariant
            i <= d@.len() <= p@.len(),
            tp == texts(p@),
            td == texts(d@),
            tp == components(path@),
            td == components(dir@),
            tp.take(i as int) == td.take(i as int),
        decreases d@.len() - i,
    {
        if !same_text(p[i].as_str(), d[i].as_str()) {
            assert(tp.take(td.len() as int)[i as int] != td[i as int]);
            return false;
        }
        assert(tp.take(i + 1) =~= tp.take(i as int).push(tp[i as int]));
        assert(td.take(i + 1) =~= td.take(i as int).push(td[i as int]));
        i = i + 1;
    }
    assert(td.take(td.len() as int) =~= td);
    true
}

/// What of a path lies below the folder `dir`, where it is inside of it.
pub fn strip_folder(path: &str, dir: &str) -> (r: Option<String>)
    ensures
        r is Some <==> inside(path@, dir@),
        r matches Some(s) ==> s@ == below(path@, dir@),
{
    if !is_inside(path, dir) {
        return None;
    }
    let p = components_of(path);
    let d = components_of(dir);
    let mut rest: Vec<String> = Vec::new();
    let mut i: usize = d.len();
    while i < p.len()
        invariant
            d@.len() <= i <= p@.len(),
            texts(rest@) == texts(p@).subrange(d@.len() as int, i as int),
        decreases p@.len() - i,
    {
        let ghost before = rest@;
        rest.push(p[i].clone());
        assert(texts(rest@) =~= texts(before).push(p@[i as int]@));
        assert(texts(p@).subrange(d@.len() as int, i + 1) =~= texts(p@).subrange(
            d@.len() as int,
            i as int,
        ).push(p@[i as int]@));
        i = i + 1;
    }
    assert(texts(p@).subrange(d@.len() as int, p@.len() as int) =~= texts(p@).skip(
        texts(d@).len() as int,
    ));
    Some(join(&rest, "/"))
}

/// Number of components of a path.
pub fn component_count(path: &str) -> (r: usize)
    ensures
        r == components(path@).len(),
{
    let p = components_of(path);
    assert(texts(p@).len() == p@.len());
    p.len()
}

/// A path below a folder, or `name` itself where it starts at the root.
pub fn join_path(dir: &str, name: &str) -> (r: String)
    ensures
        r@ == joined_path(dir@, name@),
{
    if is_absolute(name) {
        return name.to_owned();
    }
    let d = to_chars(dir);
    if d.len() == 0 || d[d.len() - 1] == '/' {
        return concat(dir, name);
    }
    let mut r = dir.to_owned();
    push_char(&mut r, '/');
    concat(r.as_str(), name)
}

/// The folder that holds the last component of a path.
pub fn parent_of(path: &str) -> (r: Option<String>)
    ensures
        opt_text(r) == parent(path@),
{
    let s = to_chars(path);
    assert(s@.take(s@.len() as int) =~= s@);
    let n: usize = bare_len(&s, s.len());
    let ghost p = s@.take(n as int);
    proof {
        if n == 1 && s@[0] == '/' {
            assert(p =~= seq!['/']);
        } else if n > 0 {
            assert(p[0] == s@[0]);
        }
    }
    if n == 0 || (n == 1 && s[0] == '/') {
        return None;
    }
    let b: usize = find_behind_slash(&s, n);
    assert(p.take(b as int) =~= s@.take(b as int));
    let k: usize = bare_len(&s, b);
    assert(s@.subrange(0, k as int) =~= s@.take(k as int));
    Some(from_range(&s, 0, k))
}

/// A path with another name in place of its last component, or behind it where that
/// names nothing.
pub fn replace_file_name(path: &str, name: &str) -> (r: String)
    ensures
        r@ == with_file_name(path@, name@),
{
    match (file_name_of(path), parent_of(path)) {
        (Some(_), Some(dir)) => join_path(dir.as_str(), name),
        _ => join_path(path, name),
    }
}

/// A path whose file name has another extension, or none where `ext` is empty.
pub fn replace_extension(path: &str, ext: &str) -> (r: String)
    ensures
        r@ == with_extension(path@, ext@),
{
    let name = match file_name_of(path) {
        Some(name) => name,
        None => return path.to_owned(),
    };
    let s = to_chars(path);
    assert(s@.take(s@.len() as int) =~= s@);
    let n: usize = bare_len(&s, s.len());
    let last = to_chars(name.as_str());
    proof {
        lemma_behind_slash(s@.take(n as int), n as int);
    }
    let k: usize = find_last_dot(&last);
    let end: usize = if k > 1 {
        n - last.len() + (k - 1)
    } else {
        n
    };
    let mut r = from_range(&s, 0, end);
    assert(s@.subrange(0, end as int) =~= s@.take(n as int).take(end as int));
    assert(s@.take(n as int).take(n as int) =~= s@.take(n as int));
    if ext.is_empty() {
        return r;
    }
    push_char(&mut r, '.');
    concat(r.as_str(), ext)
}

/// The same folder lies inside itself, and what lies inside a folder of a
/// folder lies inside that folder.
pub proof fn lemma_inside(a: Seq<char>, b: Seq<char>, c: Seq<char>)
    requires
        inside(a, b),
        inside(b, c),
    ensures
        inside(a, a),
        inside(a, c),
{
    assert(components(a).take(components(a).len() as int) =~= components(a));
    assert(components(a).take(components(c).len() as int) =~= components(a).take(
        components(b).len() as int,
    ).take(components(c).len() as int));
}

/// What stands at the end of a path without changing it is no part of its
/// components.
pub proof fn lemma_bare_same(path: Seq<char>)
    ensures
        path_key(bare(path)) == path_key(path),
    decreases path.len(),
{
    let n = path.len();
    if n > 1 && (path[n - 1] == '/' || (path[n - 1] == '.' && path[n - 2] == '/')) {
        let t = path.drop_last();
        lemma_bare_same(t);
        lemma_last_dropped(path);
    }
}

proof fn lemma_last_dropped(s: Seq<char>)
    requires
        s.len() > 1,
        s.last() == '/' || (s.last() == '.' && s[s.len() - 2] == '/'),
    ensures
        path_key(s.drop_last()) == path_key(s),
{
    let n = s.len() as int;
    let t = s.drop_last();
    if s.last() == '/' {
        assert(behind_slash(s, n) == n);
        assert(s.skip(n).len() == 0);
        assert(s.take(n - 1) =~= t);
    } else {
        assert(behind_slash(s, n - 1) == n - 1);
        assert(behind_slash(s, n) == n - 1);
        assert(s.skip(n - 1) =~= seq!['.']);
        assert(behind_slash(t, n - 1) == n - 1);
        assert(t.skip(n - 1).len() == 0);
        assert(s.take(n - 2) =~= t.take(n - 2));
    }
    assert(absolute(t) == absolute(s));
}

/// The file name of a path is its last component, where that is no dot or two, and
/// the folder that holds it has the components before that one.
pub proof fn lemma_last_component(path: Seq<char>)
    ensures
        ({
            let c = components(path);
            &&& file_name(path) == (if c.len() == 0 || c.last() == seq!['.'] || c.last() == seq![
                '.',
                '.',
            ] {
                None
            } else {
                Some(c.last())
            })
            &&& match parent(path) {
                Some(dir) => c.len() > 0 && components(dir) == c.drop_last() && absolute(dir)
                    == absolute(path),
                None => c.len() == 0,
            }
        }),
{
    let p = bare(path);
    let n = p.len() as int;
    let b = behind_slash(p, n);
    lemma_bare_same(path);
    lemma_bare_bare(path);
    lemma_behind_slash(p, n);
    if n == 0 || p == seq!['/'] {
        if n > 0 {
            assert(p[0] == '/');
            assert(behind_slash(p, 1) == 1);
            assert(p.skip(1).len() == 0);
            assert(p.take(0).len() == 0);
            assert(behind_slash(p.take(0), 0) == 0);
            assert(p.take(0).skip(0).len() == 0);
            assert(components(p.take(0)) =~= Seq::empty());
        } else {
            assert(behind_slash(p, 0) == 0);
            assert(p.skip(0).len() == 0);
        }
        assert(components(p) =~= Seq::empty());
    } else {
        let last = last_part(p);
        let dir = p.take(b);
        if b == n {
            lemma_slash_before(p, n);
            assert(n == 1);
            assert(p =~= seq!['/']);
        }
        assert(last.len() > 0);
        if b > 0 {
            lemma_slash_before(p, n);
            if last == seq!['.'] {
                assert(p[n - 1] == last[0]);
            }
        }
        let rest = if b <= 0 {
            Seq::empty()
        } else {
            components(p.take(b - 1))
        };
        assert(components(p) == rest.push(last));
        assert(rest.push(last).drop_last() =~= rest);
        lemma_bare_same(dir);
        if b > 0 {
            assert(behind_slash(dir, b) == b);
            assert(dir.skip(b).len() == 0);
            assert(dir.take(b - 1) =~= p.take(b - 1));
        } else {
            assert(dir.skip(0).len() == 0);
            assert(components(dir) =~= Seq::empty());
            assert(p[0] != '/') by {
                lemma_no_slash(p, n);
            }
        }
    }
}

/// There is nothing left to be dropped from the end.
proof fn lemma_bare_bare(path: Seq<char>)
    ensures
        ({
            let p = bare(path);
            let n = p.len();
            n > 1 ==> p[n - 1] != '/' && (p[n - 1] != '.' || p[n - 2] != '/')
        }),
    decreases path.len(),
{
    let n = path.len();
    if n > 1 && (path[n - 1] == '/' || (path[n - 1] == '.' && path[n - 2] == '/')) {
        lemma_bare_bare(path.drop_last());
    }
}

pub(crate) proof fn lemma_slash_before(s: Seq<char>, k: int)
    requires
        behind_slash(s, k) > 0,
    ensures
        s[behind_slash(s, k) - 1] == '/',
    decreases k,
{
    if k > 0 && s[k - 1] != '/' {
        lemma_slash_before(s, k - 1);
    }
}

/// What is dropped from the end of a path never is its first character.
pub(crate) proof fn lemma_bare_first(path: Seq<char>)
    ensures
        path.len() > 0 ==> bare(path).len() > 0 && bare(path)[0] == path[0],
    decreases path.len(),
{
    let n = path.len();
    if n > 1 && (path[n - 1] == '/' || (path[n - 1] == '.' && path[n - 2] == '/')) {
        lemma_bare_first(path.drop_last());
    }
}

proof fn lemma_no_slash(s: Seq<char>, k: int)
    requires
        behind_slash(s, k) <= 0,
    ensures
        forall|i: int| 0 <= i < k ==> s[i] != '/',
    decreases k,
{
    if k > 0 {
        lemma_no_slash(s, k - 1);
    }
}

/// Whether a text is the name of something in a folder.
pub open spec fn entry_name(name: Seq<char>) -> bool {
    &&& name.len() > 0
    &&& forall|i: int| 0 <= i < name.len() ==> #[trigger] name[i] != '/'
    &&& !(name.len() == 1 && name[0] == '.')
    &&& !(name.len() == 2 && name[0] == '.' && name[1] == '.')
}

/// Whether a text names a folder without anything at its end that changes nothing.
pub open spec fn plain_folder(folder: Seq<char>) -> bool {
    &&& folder.len() > 0
    &&& folder.last() != '/'
    &&& !(folder.len() > 1 && folder.last() == '.' && folder[folder.len() - 2] == '/')
}

proof fn lemma_behind_last(head: Seq<char>, name: Seq<char>, k: int)
    requires
        forall|i: int| 0 <= i < name.len() ==> #[trigger] name[i] != '/',
        head.len() > 0 ==> head.last() == '/',
        0 <= k <= name.len(),
    ensures
        behind_slash(head + name, head.len() + k) == head.len(),
    decreases k,
{
    let s = head + name;
    if k > 0 {
        lemma_behind_last(head, name, k - 1);
        assert(s[head.len() + k - 1] == name[k - 1]);
    } else if head.len() > 0 {
        assert(s[head.len() - 1] == head.last());
    }
}

proof fn lemma_entry_bare(head: Seq<char>, name: Seq<char>)
    requires
        entry_name(name),
        head.len() > 0 ==> head.last() == '/',
    ensures
        bare(head + name) == head + name,
        last_part(head + name) == name,
        file_name(head + name) == Some(name),
        behind_slash(head + name, (head + name).len() as int) == head.len(),
{
    let s = head + name;
    let n = s.len() as int;
    assert(s[n - 1] == name.last());
    if n > 1 {
        if name.len() > 1 {
            assert(s[n - 2] == name[name.len() - 2]);
        }
    }
    lemma_behind_last(head, name, name.len() as int);
    assert(s.skip(head.len() as int) =~= name);
    if name.len() == 1 {
        assert(seq!['.'][0] == '.');
    }
    if name == seq!['.', '.'] {
        assert(name[0] == '.' && name[1] == '.');
    }
}

/// A path that is put together from a folder and a name is taken apart into them
/// again, and another name takes the place of that name in that folder.
pub proof fn lemma_entry_of_folder(folder: Seq<char>, name: Seq<char>, other: Seq<char>)
    requires
        plain_folder(folder),
        entry_name(name),
        entry_name(other),
    ensures
        ({
            let path = folder + seq!['/'] + name;
            &&& joined_path(folder, name) == path
            &&& file_name(path) == Some(name)
            &&& parent(path) == Some(folder)
            &&& with_file_name(path, other) == folder + seq!['/'] + other
            &&& components(path) == components(folder).push(name)
            &&& absolute(path) == absolute(folder)
        }),
{
    let head = folder + seq!['/'];
    let path = folder + seq!['/'] + name;
    assert(head.last() == '/');
    assert(folder.push('/') =~= head);
    lemma_entry_bare(head, name);
    assert(bare(folder) == folder);
    assert(head.drop_last() =~= folder);
    assert(bare(head) == folder);
    assert(path.take(head.len() as int) =~= head);
    assert(path != seq!['/']) by {
        assert(path.len() > 1);
    }
    assert(path[0] == folder[0]);
    assert(path.take(folder.len() as int) =~= folder);
    if name == seq!['.'] {
        assert(name[0] == '.');
    }
    assert(path.skip(head.len() as int) =~= name);
    assert(components(path) == components(folder).push(name));
    assert(other[0] != '/');
    assert(joined_path(folder, other) =~= folder + seq!['/'] + other);
}

/// The same of names in the root, and of names alone.
pub proof fn lemma_entry_of_root(name: Seq<char>, other: Seq<char>)
    requires
        entry_name(name),
        entry_name(other),
    ensures
        ({
            let root = seq!['/'];
            let nowhere = Seq::<char>::empty();
            &&& joined_path(root, name) == root + name
            &&& file_name(root + name) == Some(name)
            &&& parent(root + name) == Some(root)
            &&& with_file_name(root + name, other) == root + other
            &&& components(root + name) == seq![name]
            &&& joined_path(nowhere, name) == name
            &&& file_name(name) == Some(name)
            &&& parent(name) == Some(nowhere)
            &&& with_file_name(name, other) == other
            &&& components(name) == seq![name]
            &&& components(root) == Seq::<Seq<char>>::empty() && components(nowhere) == Seq::<
                Seq<char>,
            >::empty()
            &&& absolute(root + name) && !absolute(name)
        }),
{
    let root = seq!['/'];
    let nowhere = Seq::<char>::empty();
    assert(root.last() == '/');
    lemma_entry_bare(root, name);
    lemma_entry_bare(nowhere, name);
    assert(nowhere + name =~= name);
    assert((root + name).take(1) =~= root);
    assert(name.take(0) =~= nowhere);
    assert(bare(root) == root && bare(nowhere) == nowhere);
    assert((root + name).len() > 1);
    assert(name[0] != '/' && other[0] != '/');
    assert(nowhere + other =~= other);
    assert(behind_slash(nowhere, 0) == 0);
    assert(nowhere.skip(0).len() == 0);
    assert(components(nowhere) =~= Seq::empty());
    assert(behind_slash(root, 1) == 1);
    assert(root.skip(1).len() == 0);
    assert(root.take(0) =~= nowhere);
    assert(components(root) =~= Seq::empty());
    assert((root + name).take(0) =~= nowhere);
    assert((root + name).skip(1) =~= name);
    if name == seq!['.'] {
        assert(name[0] == '.');
    }
    assert(components(root + name) =~= seq![name]);
    assert(name.skip(0) =~= name);
    assert(components(name) =~= seq![name]);
    assert((root + name)[0] == '/');
    if name == root {
        assert(name[0] == '/');
    }
}

proof fn lemma_dot_found(stem: Seq<char>, ext: Seq<char>, k: int)
    requires
        forall|i: int| 0 <= i < ext.len() ==> #[trigger] ext[i] != '.',
        0 <= k <= ext.len(),
    ensures
        last_dot(stem + seq!['.'] + ext, stem.len() + 1 + k) == stem.len(),
    decreases k,
{
    let s = stem + seq!['.'] + ext;
    if k > 0 {
        lemma_dot_found(stem, ext, k - 1);
        assert(s[stem.len() + k] == ext[k - 1]);
    } else {
        assert(s[stem.len() as int] == '.');
    }
}

/// The extension of a name is what stands behind its last dot. Another extension takes
/// its place and leaves the folder and the rest of the name as they are.
pub proof fn lemma_extension_of_entry(
    head: Seq<char>,
    stem: Seq<char>,
    ext: Seq<char>,
    other: Seq<char>,
)
    requires
        head.len() > 0 ==> head.last() == '/',
        stem.len() > 0 && ext.len() > 0,
        forall|i: int| 0 <= i < stem.len() ==> #[trigger] stem[i] != '/',
        forall|i: int| 0 <= i < ext.len() ==> #[trigger] ext[i] != '/' && ext[i] != '.',
    ensures
        ({
            let path = head + (stem + seq!['.'] + ext);
            &&& extension(path) == Some(ext)
            &&& other.len() > 0 ==> with_extension(path, other) == head + stem + seq!['.'] + other
            &&& other.len() == 0 ==> with_extension(path, other) == head + stem
        }),
{
    let name = stem + seq!['.'] + ext;
    let path = head + name;
    assert forall|i: int| 0 <= i < name.len() implies #[trigger] name[i] != '/' by {
        if i < stem.len() {
            assert(name[i] == stem[i]);
        } else if i > stem.len() {
            assert(name[i] == ext[i - stem.len() - 1]);
        }
    }
    lemma_entry_bare(head, name);
    lemma_dot_found(stem, ext, ext.len() as int);
    assert(name.skip(stem.len() as int + 1) =~= ext);
    let kept = path.take((head.len() + stem.len()) as int);
    assert(kept =~= head + stem);
    assert(kept.push('.') + other =~= head + stem + seq!['.'] + other);
}

/// Another name for a file leaves it in its folder, however the path is written.
pub proof fn lemma_renamed_in_folder(path: Seq<char>, name: Seq<char>)
    requires
        file_name(path) is Some,
        entry_name(name),
    ensures
        ({
            let to = with_file_name(path, name);
            &&& file_name(to) == Some(name)
            &&& parent(to) == parent(path)
            &&& components(to) == components(path).drop_last().push(name)
            &&& absolute(to) == absolute(path)
        }),
{
    lemma_last_component(path);
    let p = bare(path);
    let n = p.len() as int;
    let dir = parent(path)->0;
    let above = p.take(behind_slash(p, n));
    lemma_bare_bare(above);
    lemma_behind_slash(p, n);
    if dir == seq!['/'] {
        lemma_entry_of_root(name, name);
        assert(joined_path(dir, name) == dir + name);
    } else if dir.len() == 0 {
        lemma_entry_of_root(name, name);
        assert(dir =~= Seq::<char>::empty());
    } else {
        if dir.len() == 1 && dir[0] == '/' {
            assert(dir =~= seq!['/']);
        }
        assert(plain_folder(dir));
        lemma_entry_of_folder(dir, name, name);
    }
}

/// What stands in a folder lies inside it, and not the other way round. Of two entries of
/// a folder neither lies inside the other.
pub proof fn lemma_entry_is_inside(folder: Seq<char>, name: Seq<char>, other: Seq<char>)
    requires
        plain_folder(folder),
        entry_name(name),
        entry_name(other),
    ensures
        ({
            let path = folder + seq!['/'] + name;
            &&& inside(path, folder)
            &&& !inside(folder, path)
            &&& path_key(path) != path_key(folder)
            &&& below(path, folder) == name
            &&& inside(path, folder + seq!['/'] + other) <==> name == other
        }),
{
    let path = folder + seq!['/'] + name;
    lemma_entry_of_folder(folder, name, other);
    lemma_entry_of_folder(folder, other, name);
    let c = components(folder);
    let n = c.len() as int;
    assert(c.push(name).take(n) =~= c);
    assert(c.push(name).skip(n) =~= seq![name]);
    assert(seq![name].drop_last() =~= Seq::<Seq<char>>::empty());
    assert(below(path, folder) == name) by {
        reveal_with_fuel(joined, 2);
        assert(seq![name].last() == name);
    }
    assert(c.push(name).take(n + 1) =~= c.push(name));
    assert(c.push(name)[n] == name && c.push(other)[n] == other);
}

proof fn lemma_slash_behind(head: Seq<char>, s: Seq<char>, k: int)
    requires
        head.len() > 0 && head.last() == '/',
        0 <= k <= s.len(),
    ensures
        behind_slash(head + s, head.len() + k) == head.len() + behind_slash(s, k),
    decreases k,
{
    if k > 0 {
        assert((head + s)[head.len() + k - 1] == s[k - 1]);
        lemma_slash_behind(head, s, k - 1);
    } else {
        assert((head + s)[head.len() - 1] == head.last());
    }
}

/// The components of a path below a folder are those of the folder and then its own.
proof fn lemma_components_below(folder: Seq<char>, s: Seq<char>)
    requires
        !component_at(s, 0, 1) || s[0] != '.',
    ensures
        components(folder + seq!['/'] + s) == components(folder) + components(s),
    decreases s.len(),
{
    let head = folder + seq!['/'];
    let full = head + s;
    let b = behind_slash(s, s.len() as int);
    lemma_behind_slash(s, s.len() as int);
    lemma_slash_behind(head, s, s.len() as int);
    assert(full.skip(head.len() + b) =~= s.skip(b));
    if b > 0 {
        let t = s.take(b - 1);
        lemma_slash_before(s, s.len() as int);
        assert(full.take(head.len() + b - 1) =~= head + t);
        if component_at(t, 0, 1) {
            assert(t[0] != '/');
            assert(t[0] == s[0]);
            if t.len() == 1 {
                assert(s[1] == '/');
            } else {
                assert(t[1] == s[1]);
            }
            assert(component_at(s, 0, 1));
        }
        lemma_components_below(folder, t);
    } else {
        assert(full.take(folder.len() as int) =~= folder);
        assert(s.skip(0) =~= s);
        lemma_no_slash_in(s, s.len() as int);
        if s == seq!['.'] {
            assert(s[0] == '.');
            assert(component_at(s, 0, 1));
        }
    }
    assert(components(full) =~= components(folder) + components(s));
}

proof fn lemma_no_slash_in(s: Seq<char>, k: int)
    requires
        0 <= k <= s.len(),
    ensures
        forall|i: int| behind_slash(s, k) <= i < k ==> s[i] != '/',
    decreases k,
{
    if k > 0 && s[k - 1] != '/' {
        lemma_no_slash_in(s, k - 1);
    }
}

/// Every component stands in its path.
proof fn lemma_component_stands(s: Seq<char>, i: int) -> (from: int)
    requires
        0 <= i < components(s).len(),
    ensures
        component_at(s, from, from + components(s)[i].len()),
        s.subrange(from, from + components(s)[i].len()) == components(s)[i],
    decreases s.len(),
{
    let b = behind_slash(s, s.len() as int);
    lemma_behind_slash(s, s.len() as int);
    lemma_no_slash_in(s, s.len() as int);
    assert(s.subrange(b, s.len() as int) =~= s.skip(b));
    if b > 0 {
        lemma_slash_before(s, s.len() as int);
    }
    if b > 0 && i < components(s.take(b - 1)).len() {
        let t = s.take(b - 1);
        let from = lemma_component_stands(t, i);
        let n = components(t)[i].len();
        assert(s.subrange(from, from + n) =~= t.subrange(from, from + n));
        assert forall|j: int| from <= j < from + n implies s[j] != '/' by {
            assert(t[j] == s[j]);
        }
        if from > 0 {
            assert(t[from - 1] == s[from - 1]);
        }
        if from + n < t.len() {
            assert(t[from + n as int] == s[from + n as int]);
        }
        from
    } else {
        b
    }
}

/// A new entry lies inside the folder that it is created in: its path leads nowhere up.
pub proof fn lemma_new_entry_lies_inside(folder: Seq<char>, s: Seq<char>)
    requires
        plain_folder(folder),
        stays_inside(s),
    ensures
        joined_path(folder, s) == folder + seq!['/'] + s,
        inside(folder + seq!['/'] + s, folder),
        forall|i: int|
            0 <= i < components(s).len() ==> !((#[trigger] components(s)[i]).len() == 2
                && components(s)[i][0] == '.' && components(s)[i][1] == '.'),
{
    assert(folder.push('/') =~= folder + seq!['/']);
    lemma_components_below(folder, s);
    let c = components(folder);
    assert((c + components(s)).take(c.len() as int) =~= c);
    assert((folder + seq!['/'] + s)[0] == folder[0]);
    assert forall|i: int| 0 <= i < components(s).len() implies !((#[trigger] components(s)[i]).len()
        == 2 && components(s)[i][0] == '.' && components(s)[i][1] == '.') by {
        let from = lemma_component_stands(s, i);
        let p = components(s)[i];
        if p.len() == 2 && p[0] == '.' && p[1] == '.' {
            assert(component_at(s, from, from + 2));
            assert(s.subrange(from, from + 2)[0] == s[from]);
            assert(s.subrange(from, from + 2)[1] == s[from + 1]);
            assert(climbs(s));
        }
    }
}

/// A path that leads up at any place, one from the root and an empty one are refused, and
/// names in folders are taken.
pub proof fn lemma_paths_that_lead_out_are_refused(
    head: Seq<char>,
    tail: Seq<char>,
    folder: Seq<char>,
    name: Seq<char>,
)
    ensures
        (head.len() == 0 || head.last() == '/') && (tail.len() == 0 || tail[0] == '/')
            ==> !stays_inside(head + seq!['.', '.'] + tail),
        !stays_inside(seq!['/'] + tail),
        !stays_inside(Seq::empty()),
        entry_name(name) ==> stays_inside(name),
        entry_name(folder) && entry_name(name) ==> stays_inside(folder + seq!['/'] + name),
{
    if (head.len() == 0 || head.last() == '/') && (tail.len() == 0 || tail[0] == '/') {
        let s = head + seq!['.', '.'] + tail;
        let n = head.len() as int;
        assert(s[n] == '.' && s[n + 1] == '.');
        if n > 0 {
            assert(s[n - 1] == head.last());
        }
        if tail.len() > 0 {
            assert(s[n + 2] == tail[0]);
        }
        assert(component_at(s, n, n + 2));
        assert(climbs(s));
    }
    assert((seq!['/'] + tail)[0] == '/');
    if entry_name(name) {
        assert(name[0] != '/');
        if climbs(name) {
            let f = choose|f: int|
                #[trigger] component_at(name, f, f + 2) && name[f] == '.' && name[f + 1] == '.';
            assert(f == 0);
        }
    }
    if entry_name(folder) && entry_name(name) {
        let s = folder + seq!['/'] + name;
        let n = folder.len() as int;
        assert(s[n] == '/');
        assert forall|j: int| 0 <= j < n implies s[j] != '/' && s[j] == folder[j] by {
            assert(folder[j] != '/');
        }
        assert forall|j: int| n < j < s.len() implies s[j] != '/' && s[j] == name[j - n - 1] by {
            assert(name[j - n - 1] != '/');
        }
        assert(s[0] == folder[0]);
        if climbs(s) {
            let f = choose|f: int|
                #[trigger] component_at(s, f, f + 2) && s[f] == '.' && s[f + 1] == '.';
            if f > 0 {
                assert(s[f - 1] == '/');
                assert(f == n + 1);
                assert(name.len() == 2);
                assert(name[0] == '.' && name[1] == '.');
            } else {
                assert(n == 2);
                assert(folder[0] == '.' && folder[1] == '.');
            }
        }
        if component_at(s, 0, 1) && s[0] == '.' {
            assert(n == 1);
            assert(folder[0] == '.');
        }
    }
}

/// The texts of a project are its sources, its references, its styles and its notes. The
/// tree shows them and images, whose extensions may be written in either case.
pub proof fn lemma_project_files(head: Seq<char>, stem: Seq<char>, ext: Seq<char>)
    requires
        head.len() > 0 ==> head.last() == '/',
        stem.len() > 0 && ext.len() > 0,
        forall|i: int| 0 <= i < stem.len() ==> #[trigger] stem[i] != '/',
        forall|i: int| 0 <= i < ext.len() ==> #[trigger] ext[i] != '/' && ext[i] != '.',
    ensures
        ({
            let path = head + (stem + seq!['.'] + ext);
            let text = ext == "tex"@ || ext == "bib"@ || ext == "sty"@ || ext == "cls"@ || ext
                == "md"@ || ext == "txt"@;
            let low = ascii_lowered(ext);
            &&& text_file(path) <==> text
            &&& text ==> tree_file(path)
            &&& low == "png"@ || low == "jpg"@ || low == "jpeg"@ || low == "gif"@ || low == "webp"@
                || low == "bmp"@ || low == "tiff"@ ==> tree_file(path)
            &&& low == "pdf"@ || low == "aux"@ || low == "log"@ ==> !tree_file(path)
        }),
{
    lemma_extension_of_entry(head, stem, ext, Seq::empty());
    let path = head + (stem + seq!['.'] + ext);
    assert(extension(path) == Some(ext));
    lemma_other_extensions(ext);
}

proof fn lemma_other_extensions(ext: Seq<char>)
    ensures
        ({
            let low = ascii_lowered(ext);
            low == "pdf"@ || low == "aux"@ || low == "log"@ ==> {
                &&& ext != "tex"@ && ext != "bib"@ && ext != "sty"@ && ext != "cls"@ && ext != "md"@
                    && ext != "txt"@
                &&& !image_extension(ext)
            }
        }),
{
    let low = ascii_lowered(ext);
    if low == "pdf"@ || low == "aux"@ || low == "log"@ {
        reveal_strlit("pdf");
        reveal_strlit("aux");
        reveal_strlit("log");
        reveal_strlit("tex");
        reveal_strlit("bib");
        reveal_strlit("sty");
        reveal_strlit("cls");
        reveal_strlit("md");
        reveal_strlit("txt");
        reveal_strlit("avif");
        reveal_strlit("jpg");
        reveal_strlit("jpeg");
        reveal_strlit("jfif");
        reveal_strlit("png");
        reveal_strlit("apng");
        reveal_strlit("gif");
        reveal_strlit("webp");
        reveal_strlit("tif");
        reveal_strlit("tiff");
        reveal_strlit("tga");
        reveal_strlit("dds");
        reveal_strlit("bmp");
        reveal_strlit("ico");
        reveal_strlit("hdr");
        reveal_strlit("exr");
        reveal_strlit("pbm");
        reveal_strlit("pam");
        reveal_strlit("ppm");
        reveal_strlit("pgm");
        reveal_strlit("pnm");
        reveal_strlit("ff");
        reveal_strlit("qoi");
        let a = low[0];
        let b = low[1];
        let c = low[2];
        assert(low.len() == 3);
        assert((a == 'p' && b == 'd' && c == 'f') || (a == 'a' && b == 'u' && c == 'x') || (a == 'l'
            && b == 'o' && c == 'g'));
        assert(low[0] == crate::chars::ascii_lower(ext[0]));
        assert(low[1] == crate::chars::ascii_lower(ext[1]));
        assert(low[2] == crate::chars::ascii_lower(ext[2]));
    }
}

} // verus!
