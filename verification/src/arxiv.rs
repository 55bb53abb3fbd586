//! References to papers on arXiv.

use crate::chars::{digit, is_digit};
use crate::strings::{concat, matches_at, occurs_at, trim, trimmed};
use crate::text::{from_range, to_chars};
use vstd::prelude::*;

verus! {

/// Whether `c` is an ASCII letter.
pub open spec fn ascii_letter(c: char) -> bool {
    ('a' <= c && c <= 'z') || ('A' <= c && c <= 'Z')
}

/// Whether the characters `from..to` of `s` are decimal digits.
pub open spec fn digits_in(s: Seq<char>, from: int, to: int) -> bool {
    forall|i: int| from <= i < to ==> digit(#[trigger] s[i])
}

/// Whether `s` has the shape `YYMM.NNNN` or `YYMM.NNNNN`.
pub open spec fn modern_id(s: Seq<char>) -> bool {
    (s.len() == 9 || s.len() == 10) && s[4] == '.' && digits_in(s, 0, 4) && digits_in(
        s,
        5,
        s.len() as int,
    )
}

/// Whether `s` has the shape `category/NNNNNNN`.
pub open spec fn legacy_id(s: Seq<char>) -> bool {
    &&& s.len() >= 9
    &&& s[s.len() - 8] == '/'
    &&& digits_in(s, s.len() - 7, s.len() as int)
    &&& forall|i: int|
        0 <= i < s.len() - 8 ==> ascii_letter(#[trigger] s[i]) || s[i] == '-' || s[i] == '.'
}

/// `s` without every `.pdf` at its end.
pub open spec fn without_pdf(s: Seq<char>) -> Seq<char>
    decreases s.len(),
{
    if s.len() >= 4 && s[s.len() - 4] == '.' && s[s.len() - 3] == 'p' && s[s.len() - 2] == 'd'
        && s[s.len() - 1] == 'f' {
        without_pdf(s.take(s.len() - 4))
    } else {
        s
    }
}

/// Position of the last `v` in the first `k` characters of `s`, or -1.
pub open spec fn last_v(s: Seq<char>, k: int) -> int
    decreases k,
{
    if k <= 0 {
        -1
    } else if s[k - 1] == 'v' {
        k - 1
    } else {
        last_v(s, k - 1)
    }
}

/// `s` without a version such as `v2` at its end.
pub open spec fn without_version(s: Seq<char>) -> Seq<char> {
    let v = last_v(s, s.len() as int);
    if v >= 0 && v + 1 < s.len() && digits_in(s, v + 1, s.len() as int) {
        s.take(v)
    } else {
        s
    }
}

/// The identifier in a reference that is no address.
pub open spec fn reference_id(r: Seq<char>) -> Seq<char> {
    without_pdf(
        if occurs_at(r, "arXiv:"@, 0) {
            r.skip("arXiv:"@.len() as int)
        } else {
            r
        },
    )
}

/// Address of the page that a reference stands for: the reference itself where
/// it is an address, or the page of a well-formed identifier.
pub open spec fn page_url(reference: Seq<char>) -> Option<Seq<char>> {
    let r = trimmed(reference);
    if occurs_at(r, "https://"@, 0) || occurs_at(r, "http://"@, 0) {
        Some(r)
    } else {
        let id = reference_id(r);
        let base = without_version(id);
        if modern_id(base) || legacy_id(base) {
            Some("https://arxiv.org/abs/"@ + id)
        } else {
            None
        }
    }
}

fn digits_between(s: &Vec<char>, from: usize, to: usize) -> (r: bool)
    requires
        to <= s@.len(),
    ensures
        r == digits_in(s@, from as int, to as int),
{
    let mut i: usize = from;
    while i < to
        invariant
            from <= i,
            to <= s@.len(),
            forall|j: int| from <= j < i ==> digit(#[trigger] s@[j]),
        decreases to - i,
    {
        if !is_digit(s[i]) {
            assert(!digit(s@[i as int]));
            return false;
        }
        i = i + 1;
    }
    true
}

fn is_modern(s: &Vec<char>, n: usize) -> (r: bool)
    requires
        n <= s@.len(),
    ensures
        r == modern_id(s@.take(n as int)),
{
    let ghost t = s@.take(n as int);
    if n != 9 && n != 10 {
        return false;
    }
    if s[4] != '.' {
        return false;
    }
    let a: bool = digits_between(s, 0, 4);
    let b: bool = digits_between(s, 5, n);
    proof {
        lemma_digits_take(s@, n as int, 0, 4);
        lemma_digits_take(s@, n as int, 5, n as int);
    }
    a && b
}

proof fn lemma_digits_take(s: Seq<char>, n: int, from: int, to: int)
    requires
        0 <= from,
        to <= n <= s.len(),
    ensures
        digits_in(s, from, to) == digits_in(s.take(n), from, to),
{
    assert forall|i: int| from <= i < to implies #[trigger] s[i] == s.take(n)[i] by {}
    if digits_in(s.take(n), from, to) {
        assert forall|i: int| from <= i < to implies digit(#[trigger] s[i]) by {
            assert(digit(s.take(n)[i]));
        }
    }
}

fn is_legacy(s: &Vec<char>, n: usize) -> (r: bool)
    requires
        n <= s@.len(),
    ensures
        r == legacy_id(s@.take(n as int)),
{
    let ghost t = s@.take(n as int);
    if n < 9 {
        return false;
    }
    if s[n - 8] != '/' {
        assert(t[t.len() - 8] != '/');
        return false;
    }
    proof {
        lemma_digits_take(s@, n as int, n - 7, n as int);
    }
    if !digits_between(s, n - 7, n) {
        return false;
    }
    let mut i: usize = 0;
    while i < n - 8
        invariant
            9 <= n <= s@.len(),
            t == s@.take(n as int),
            i <= n - 8,
            forall|j: int|
                0 <= j < i ==> ascii_letter(#[trigger] t[j]) || t[j] == '-' || t[j] == '.',
        decreases n - i,
    {
        let c: char = s[i];
        assert(t[i as int] == c);
        if !(('a' <= c && c <= 'z') || ('A' <= c && c <= 'Z') || c == '-' || c == '.') {
            return false;
        }
        i = i + 1;
    }
    true
}

/// Address of the page that a reference stands for.
pub fn arxiv_page_url(reference: &str) -> (r: Option<String>)
    ensures
        r is Some <==> page_url(reference@) is Some,
        r matches Some(url) ==> Some(url@) == page_url(reference@),
{
    let whole = trim(reference);
    let s = to_chars(whole.as_str());
    if matches_at(&s, &to_chars("https://"), 0) || matches_at(&s, &to_chars("http://"), 0) {
        return Some(whole);
    }
    let prefix = to_chars("arXiv:");
    let from: usize = if matches_at(&s, &prefix, 0) {
        prefix.len()
    } else {
        0
    };
    let rest = from_range(&s, from, s.len());
    let id = to_chars(rest.as_str());
    proof {
        if from > 0 {
            assert(s@.subrange(from as int, s@.len() as int) =~= s@.skip(from as int));
        } else {
            assert(s@.subrange(from as int, s@.len() as int) =~= s@);
            assert(s@.skip(0) =~= s@);
        }
    }
    let mut n: usize = id.len();
    assert(id@.take(n as int) =~= id@);
    while n >= 4 && id[n - 4] == '.' && id[n - 3] == 'p' && id[n - 2] == 'd' && id[n - 1] == 'f'
        invariant
            n <= id@.len(),
            without_pdf(id@) == without_pdf(id@.take(n as int)),
        decreases n,
    {
        assert(id@.take(n as int).take(n - 4) =~= id@.take(n - 4));
        n = n - 4;
    }
    let ghost clean = id@.take(n as int);
    assert(without_pdf(id@) == clean);
    let mut v: usize = n;
    while v > 0 && id[v - 1] != 'v'
        invariant
            v <= n <= id@.len(),
            clean == id@.take(n as int),
            last_v(clean, n as int) == last_v(clean, v as int),
        decreases v,
    {
        v = v - 1;
    }
    let mut base: usize = n;
    if v > 0 && v < n {
        proof {
            lemma_digits_take(id@, n as int, v as int, n as int);
        }
        if digits_between(&id, v, n) {
            base = v - 1;
        }
    }
    proof {
        assert(clean.take(base as int) =~= id@.take(base as int));
        assert(base == n ==> clean.take(base as int) =~= clean);
        assert(without_version(clean) == id@.take(base as int));
    }
    if is_modern(&id, base) || is_legacy(&id, base) {
        let kept = from_range(&id, 0, n);
        assert(id@.subrange(0, n as int) =~= clean);
        Some(concat("https://arxiv.org/abs/", kept.as_str()))
    } else {
        None
    }
}

/// An address stands for itself.
pub proof fn lemma_address_stands_for_itself(reference: Seq<char>)
    requires
        occurs_at(trimmed(reference), "https://"@, 0) || occurs_at(trimmed(reference), "http://"@, 0),
    ensures
        page_url(reference) == Some(trimmed(reference)),
{
}

proof fn lemma_without_pdf(id: Seq<char>)
    requires
        id.len() > 0,
        id.last() != 'f',
    ensures
        without_pdf(id) == id,
        without_pdf(id + ".pdf"@) == id,
{
    reveal_strlit(".pdf");
    let s = id + ".pdf"@;
    let n = s.len();
    assert(s[n - 4] == '.' && s[n - 3] == 'p' && s[n - 2] == 'd' && s[n - 1] == 'f');
    assert(s.take(n - 4) =~= id);
    assert(without_pdf(id) == id);
}

proof fn lemma_last_v(s: Seq<char>, v: int, k: int)
    requires
        0 <= v < k <= s.len(),
        s[v] == 'v',
        forall|i: int| v < i < k ==> #[trigger] s[i] != 'v',
    ensures
        last_v(s, k) == v,
    decreases k,
{
    if k - 1 > v {
        lemma_last_v(s, v, k - 1);
    }
}

proof fn lemma_no_v(s: Seq<char>, k: int)
    requires
        0 <= k <= s.len(),
        forall|i: int| 0 <= i < k ==> #[trigger] s[i] != 'v',
    ensures
        last_v(s, k) == -1,
    decreases k,
{
    if k > 0 {
        lemma_no_v(s, k - 1);
    }
}

/// An identifier of arXiv, four digits, a dot and four or five digits, stands for its
/// page, with or without a version, which stays, with or without the mark of arXiv, and
/// with or without the extension of its document.
pub proof fn lemma_identifier_stands_for_its_page(base: Seq<char>, version: Seq<char>)
    requires
        base.len() == 9 || base.len() == 10,
        base[4] == '.',
        forall|i: int| 0 <= i < base.len() && i != 4 ==> '0' <= #[trigger] base[i] <= '9',
        version.len() == 0 || (version.len() > 1 && version[0] == 'v'),
        forall|i: int| 1 <= i < version.len() ==> '0' <= #[trigger] version[i] <= '9',
    ensures
        ({
            let id = base + version;
            let page = Some("https://arxiv.org/abs/"@ + id);
            &&& page_url(id) == page
            &&& page_url(id + ".pdf"@) == page
            &&& page_url("arXiv:"@ + id) == page
            &&& page_url("arXiv:"@ + (id + ".pdf"@)) == page
        }),
{
    let id = base + version;
    assert(id[0] == base[0]);
    assert('0' <= id.last() <= '9') by {
        if version.len() > 0 {
            assert(id.last() == version.last());
        } else {
            assert(id.last() == base.last());
        }
    }
    assert(without_version(id) == base) by {
        let n = base.len() as int;
        if version.len() > 0 {
            assert(id[n] == 'v');
            assert forall|i: int| n < i < id.len() implies #[trigger] id[i] != 'v' && digit(
                id[i],
            ) by {
                assert(id[i] == version[i - n]);
            }
            lemma_last_v(id, n, id.len() as int);
            assert(id.take(n) =~= base);
        } else {
            assert(id =~= base);
            assert forall|i: int| 0 <= i < id.len() implies #[trigger] id[i] != 'v' by {
                assert(id[i] == base[i]);
            }
            lemma_no_v(id, id.len() as int);
        }
    }
    assert(modern_id(base));
    lemma_page_of(id);
}

/// An identifier of the older form, a category and seven digits, stands for its page too.
pub proof fn lemma_old_identifier_stands_for_its_page(category: Seq<char>, number: Seq<char>)
    requires
        category.len() > 0,
        forall|i: int|
            0 <= i < category.len() ==> ascii_letter(#[trigger] category[i]) || category[i] == '-'
                || category[i] == '.',
        number.len() == 7,
        forall|i: int| 0 <= i < number.len() ==> '0' <= #[trigger] number[i] <= '9',
    ensures
        ({
            let id = category + seq!['/'] + number;
            let page = Some("https://arxiv.org/abs/"@ + id);
            &&& page_url(id) == page
            &&& page_url(id + ".pdf"@) == page
        }),
{
    let id = category + seq!['/'] + number;
    let c = category.len() as int;
    assert(id[0] == category[0]);
    assert(id.last() == number.last());
    assert(id[c] == '/');
    assert forall|i: int| c < i < id.len() implies digit(#[trigger] id[i]) by {
        assert(id[i] == number[i - c - 1]);
    }
    assert forall|i: int| 0 <= i < c implies ascii_letter(#[trigger] id[i]) || id[i] == '-' || id[i]
        == '.' by {
        assert(id[i] == category[i]);
    }
    assert(legacy_id(id));
    assert(without_version(id) == id) by {
        let v = last_v(id, id.len() as int);
        lemma_v_found(id, id.len() as int);
        if v >= 0 {
            assert(v <= c) by {
                if v > c {
                    assert(digit(id[v]));
                }
            }
            if v < c {
                assert(!digit(id[c]));
            }
        }
    }
    reveal_strlit("https://");
    reveal_strlit("http://");
    reveal_strlit("arXiv:");
    reveal_strlit(".pdf");
    let long = id + ".pdf"@;
    crate::strings::lemma_trimmed_same(id);
    crate::strings::lemma_trimmed_same(long);
    lemma_without_pdf(id);
    assert forall|s: Seq<char>|
        (s == id || s == long) && #[trigger] s.len() > 0 implies !occurs_at(s, "https://"@, 0)
        && !occurs_at(s, "http://"@, 0) && !occurs_at(s, "arXiv:"@, 0) by {
        lemma_no_colon(s, c);
    }
    assert(id.len() > 0 && long.len() > 0);
}

/// A text whose first part holds no colon and ends with a single slash is no address.
proof fn lemma_no_colon(s: Seq<char>, c: int)
    requires
        0 < c < s.len(),
        forall|i: int| 0 <= i < c ==> #[trigger] s[i] != ':' && s[i] != '/',
        s[c] == '/',
    ensures
        !occurs_at(s, "https://"@, 0),
        !occurs_at(s, "http://"@, 0),
        !occurs_at(s, "arXiv:"@, 0),
{
    reveal_strlit("https://");
    reveal_strlit("http://");
    reveal_strlit("arXiv:");
    if occurs_at(s, "https://"@, 0) {
        let w = s.subrange(0, 8);
        assert(w[0] == s[0] && w[1] == s[1] && w[2] == s[2] && w[3] == s[3] && w[4] == s[4] && w[5]
            == s[5]);
    }
    if occurs_at(s, "http://"@, 0) {
        let w = s.subrange(0, 7);
        assert(w[0] == s[0] && w[1] == s[1] && w[2] == s[2] && w[3] == s[3] && w[4] == s[4]);
    }
    if occurs_at(s, "arXiv:"@, 0) {
        let w = s.subrange(0, 6);
        assert(w[0] == s[0] && w[1] == s[1] && w[2] == s[2] && w[3] == s[3] && w[4] == s[4] && w[5]
            == s[5]);
    }
}

proof fn lemma_v_found(s: Seq<char>, k: int)
    requires
        0 <= k <= s.len(),
    ensures
        -1 <= last_v(s, k) < k || last_v(s, k) == -1,
        last_v(s, k) >= 0 ==> s[last_v(s, k)] == 'v',
    decreases k,
{
    if k > 0 && s[k - 1] != 'v' {
        lemma_v_found(s, k - 1);
    }
}

proof fn lemma_page_of(id: Seq<char>)
    requires
        id.len() > 0,
        '0' <= id[0] <= '9',
        '0' <= id.last() <= '9',
        modern_id(without_version(id)) || legacy_id(without_version(id)),
    ensures
        page_url(id) == Some("https://arxiv.org/abs/"@ + id),
        page_url(id + ".pdf"@) == Some("https://arxiv.org/abs/"@ + id),
        page_url("arXiv:"@ + id) == Some("https://arxiv.org/abs/"@ + id),
        page_url("arXiv:"@ + (id + ".pdf"@)) == Some("https://arxiv.org/abs/"@ + id),
{
    reveal_strlit("https://");
    reveal_strlit("http://");
    reveal_strlit("arXiv:");
    reveal_strlit(".pdf");
    lemma_without_pdf(id);
    let long = id + ".pdf"@;
    let a = "arXiv:"@ + id;
    let b = "arXiv:"@ + long;
    assert(long[0] == id[0] && long.last() == 'f');
    assert(a[0] == 'a' && a.last() == id.last());
    assert(b[0] == 'a' && b.last() == 'f');
    crate::strings::lemma_trimmed_same(id);
    crate::strings::lemma_trimmed_same(long);
    crate::strings::lemma_trimmed_same(a);
    crate::strings::lemma_trimmed_same(b);
    assert(a.subrange(0, 6) =~= "arXiv:"@);
    assert(b.subrange(0, 6) =~= "arXiv:"@);
    assert(a.skip(6) =~= id);
    assert(b.skip(6) =~= long);
    assert forall|s: Seq<char>|
        (s == id || s == long || s == a || s == b) && #[trigger] s.len() > 0 implies !occurs_at(
        s,
        "https://"@,
        0,
    ) && !occurs_at(s, "http://"@, 0) by {
        if occurs_at(s, "https://"@, 0) {
            assert(s.subrange(0, 8)[0] == s[0]);
        }
        if occurs_at(s, "http://"@, 0) {
            assert(s.subrange(0, 7)[0] == s[0]);
        }
    }
    assert(id.len() > 0 && long.len() > 0 && a.len() > 0 && b.len() > 0);
    assert forall|s: Seq<char>| (s == id || s == long) && #[trigger] s.len() > 0 implies !occurs_at(
        s,
        "arXiv:"@,
        0,
    ) by {
        if occurs_at(s, "arXiv:"@, 0) {
            assert(s.subrange(0, 6)[0] == s[0]);
        }
    }
}

} // verus!
