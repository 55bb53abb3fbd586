//! The daily feed: a balanced choice of papers that changes every day.

use crate::chars::{alphanumeric, is_alphanumeric};
use crate::model::{papers_view, DiscoveryStatus, RemotePaper, RemotePaperView, TodayState};
use crate::strings::{
    concat, contains_text, join, joined, lex_le, lower, occurs, same_text, text_le, texts,
    to_lower,
};
use crate::text::{from_range, to_chars};
use sha2::Digest;
use vstd::prelude::*;
use vstd::utf8::encode_utf8;

verus! {

/// How many papers are asked for each keyword.
pub const DASHBOARD_CANDIDATE_LIMIT: u16 = 30;

/// How many papers the feed shows.
pub const DASHBOARD_DISPLAY_LIMIT: usize = 10;

/// What feeds are known under: the way they are chosen, and the keywords.
pub fn dashboard_keyword_signature(keywords: &Vec<String>) -> (r: String)
    ensures
        r@ == "balanced-v3:"@ + joined(texts(keywords@), ","@),
{
    concat("balanced-v3:", join(keywords, ",").as_str())
}

/// What SHA-256 makes of a message.
pub uninterp spec fn sha256_of(message: Seq<u8>) -> Seq<u8>;

/// `sha2::Sha256::digest`: the SHA-256 hash of a message, 32 bytes that depend on
/// the message alone.
#[verifier::external_body]
fn sha256(message: &Vec<u8>) -> (r: Vec<u8>)
    ensures
        r@ == sha256_of(message@),
        r@.len() == 32,
{
    sha2::Sha256::digest(message).to_vec()
}

/// The last `k` of the eight bytes of `n`, with the highest first.
pub open spec fn big_endian(n: nat, k: nat) -> Seq<u8>
    decreases k,
{
    if k == 0 {
        Seq::empty()
    } else {
        big_endian(n / 256, (k - 1) as nat).push((n % 256) as u8)
    }
}

/// A text behind its length.
pub open spec fn framed(s: Seq<char>) -> Seq<u8> {
    big_endian(encode_utf8(s).len(), 8) + encode_utf8(s)
}

/// What the rank of a paper is made from. Every part is framed by its length, so
/// that no two different triples of texts give the same message.
pub open spec fn rank_message(feed_date: Seq<char>, keyword: Seq<char>, id: Seq<char>) -> Seq<u8> {
    encode_utf8("papr-dashboard-feed-v1\0"@) + framed(feed_date) + framed(keyword) + framed(id)
}

/// The place of a paper on one day: a number of 32 bytes.
pub open spec fn daily_rank(feed_date: Seq<char>, keyword: Seq<char>, id: Seq<char>) -> Seq<u8> {
    sha256_of(rank_message(feed_date, keyword, id))
}

fn push_bytes(out: &mut Vec<u8>, s: &str)
    ensures
        final(out)@ == old(out)@ + encode_utf8(s@),
{
    let bytes = s.as_bytes();
    let n: usize = bytes.len();
    let mut i: usize = 0;
    assert(out@ + bytes@.take(0) =~= out@);
    while i < n
        invariant
            i <= n == bytes@.len(),
            out@ == old(out)@ + bytes@.take(i as int),
        decreases n - i,
    {
        out.push(bytes[i]);
        assert(bytes@.take(i + 1) =~= bytes@.take(i as int).push(bytes@[i as int]));
        i = i + 1;
        assert(out@ =~= old(out)@ + bytes@.take(i as int));
    }
    assert(bytes@.take(n as int) =~= bytes@);
}

fn push_length(out: &mut Vec<u8>, n: u64)
    ensures
        final(out)@ == old(out)@ + big_endian(n as nat, 8),
{
    let mut low: Vec<u8> = Vec::new();
    let mut rest: u64 = n;
    let mut k: u8 = 0;
    let ghost mut tail: Seq<u8> = Seq::empty();
    proof {
        assert(big_endian(rest as nat, 8) + tail =~= big_endian(n as nat, 8));
    }
    while k < 8
        invariant
            k <= 8,
            low@.len() == k,
            tail.len() == k,
            forall|j: int| 0 <= j < k ==> low@[j] == tail[k - 1 - j],
            big_endian(n as nat, 8) == big_endian(rest as nat, (8 - k) as nat) + tail,
        decreases 8 - k,
    {
        let b: u8 = (rest % 256) as u8;
        proof {
            let before = tail;
            tail = seq![b] + tail;
            assert(big_endian(rest as nat, (8 - k) as nat) + before =~= big_endian(
                (rest / 256) as nat,
                (7 - k) as nat,
            ) + tail);
        }
        low.push(b);
        rest = rest / 256;
        k = k + 1;
    }
    assert(big_endian(n as nat, 8) =~= tail);
    let mut i: usize = 8;
    assert(out@ + tail.take(0) =~= out@);
    while i > 0
        invariant
            i <= 8,
            low@.len() == 8,
            tail.len() == 8,
            forall|j: int| 0 <= j < 8 ==> low@[j] == tail[7 - j],
            out@ == old(out)@ + tail.take(8 - i),
        decreases i,
    {
        i = i - 1;
        out.push(low[i]);
        assert(tail.take(8 - i) =~= tail.take(7 - i).push(tail[7 - i]));
        assert(out@ =~= old(out)@ + tail.take(8 - i));
    }
    assert(tail.take(8) =~= tail);
}

fn push_framed(out: &mut Vec<u8>, s: &str)
    ensures
        final(out)@ == old(out)@ + framed(s@),
{
    let n: usize = s.as_bytes().len();
    push_length(out, n as u64);
    push_bytes(out, s);
    assert(out@ =~= old(out)@ + framed(s@));
}

/// The place of a paper on one day.
pub fn daily_paper_rank(feed_date: &str, keyword: &str, paper_id: &str) -> (r: Vec<u8>)
    ensures
        r@ == daily_rank(feed_date@, keyword@, paper_id@),
        r@.len() == 32,
{
    let mut message: Vec<u8> = Vec::new();
    push_bytes(&mut message, "papr-dashboard-feed-v1\0");
    assert(message@ =~= encode_utf8("papr-dashboard-feed-v1\0"@));
    push_framed(&mut message, feed_date);
    push_framed(&mut message, keyword);
    push_framed(&mut message, paper_id);
    sha256(&message)
}

/// Lexicographic order of bytes.
pub open spec fn bytes_le(a: Seq<u8>, b: Seq<u8>) -> bool
    decreases a.len(),
{
    if a.len() == 0 {
        true
    } else if b.len() == 0 {
        false
    } else if a[0] != b[0] {
        a[0] < b[0]
    } else {
        bytes_le(a.drop_first(), b.drop_first())
    }
}

fn bytes_at_most(a: &Vec<u8>, b: &Vec<u8>) -> (r: bool)
    ensures
        r == bytes_le(a@, b@),
{
    let mut i: usize = 0;
    assert(a@.skip(0) =~= a@);
    assert(b@.skip(0) =~= b@);
    while i < a.len() && i < b.len()
        invariant
            i <= a@.len(),
            i <= b@.len(),
            bytes_le(a@, b@) == bytes_le(a@.skip(i as int), b@.skip(i as int)),
        decreases a@.len() - i,
    {
        if a[i] != b[i] {
            return a[i] < b[i];
        }
        assert(a@.skip(i as int).drop_first() =~= a@.skip(i + 1));
        assert(b@.skip(i as int).drop_first() =~= b@.skip(i + 1));
        i = i + 1;
    }
    i == a.len()
}

pub proof fn lemma_bytes_total(a: Seq<u8>, b: Seq<u8>)
    ensures
        bytes_le(a, b) || bytes_le(b, a),
        bytes_le(a, b) && bytes_le(b, a) ==> a == b,
    decreases a.len(),
{
    if a.len() > 0 && b.len() > 0 && a[0] == b[0] {
        lemma_bytes_total(a.drop_first(), b.drop_first());
        if bytes_le(a, b) && bytes_le(b, a) {
            assert(a =~= seq![a[0]] + a.drop_first());
            assert(b =~= seq![b[0]] + b.drop_first());
        }
    } else if a.len() == 0 && b.len() == 0 {
        assert(a =~= b);
    }
}

/// Whether paper `a` comes before or with paper `b` on one day: by rank, and by
/// identifier among papers of the same rank.
pub open spec fn day_le(a: RemotePaperView, b: RemotePaperView, date: Seq<char>, keyword: Seq<char>) -> bool {
    let x = daily_rank(date, keyword, a.id);
    let y = daily_rank(date, keyword, b.id);
    if x != y {
        bytes_le(x, y)
    } else {
        lex_le(a.id, b.id)
    }
}

/// Whether paper `i` stands before paper `j`: earlier on that day or, as equals,
/// earlier in the list.
pub open spec fn day_before(
    papers: Seq<RemotePaperView>,
    date: Seq<char>,
    keyword: Seq<char>,
    i: int,
    j: int,
) -> bool {
    day_le(papers[i], papers[j], date, keyword) && (i < j || !day_le(
        papers[j],
        papers[i],
        date,
        keyword,
    ))
}

/// Whether `order` lists all papers as they stand on one day.
pub open spec fn day_order(
    papers: Seq<RemotePaperView>,
    date: Seq<char>,
    keyword: Seq<char>,
    order: Seq<usize>,
) -> bool {
    &&& order.len() == papers.len()
    &&& forall|i: int| 0 <= i < order.len() ==> (#[trigger] order[i]) < papers.len()
    &&& forall|i: int, j: int|
        0 <= i < j < order.len() ==> day_before(
            papers,
            date,
            keyword,
            #[trigger] order[i] as int,
            #[trigger] order[j] as int,
        )
}

fn comes_at_most(
    ranks: &Vec<Vec<u8>>,
    papers: &Vec<RemotePaper>,
    a: usize,
    b: usize,
    Ghost(date): Ghost<Seq<char>>,
    Ghost(keyword): Ghost<Seq<char>>,
) -> (r: bool)
    requires
        a < papers@.len() == ranks@.len(),
        b < papers@.len(),
        forall|i: int|
            0 <= i < papers@.len() ==> (#[trigger] ranks@[i])@ == daily_rank(
                date,
                keyword,
                papers@[i].id@,
            ),
    ensures
        r == day_le(papers@[a as int]@, papers@[b as int]@, date, keyword),
{
    let x = &ranks[a];
    let y = &ranks[b];
    let le: bool = bytes_at_most(x, y);
    let ge: bool = bytes_at_most(y, x);
    proof {
        lemma_bytes_total(x@, y@);
    }
    if le && ge {
        let p = to_chars(papers[a].id.as_str());
        let q = to_chars(papers[b].id.as_str());
        text_le(&p, &q)
    } else {
        le
    }
}

pub proof fn lemma_day_total(a: RemotePaperView, b: RemotePaperView, date: Seq<char>, keyword: Seq<char>)
    ensures
        day_le(a, b, date, keyword) || day_le(b, a, date, keyword),
        day_le(a, b, date, keyword) && day_le(b, a, date, keyword) ==> a.id == b.id,
{
    lemma_bytes_total(daily_rank(date, keyword, a.id), daily_rank(date, keyword, b.id));
    crate::strings::lemma_lex_total(a.id, b.id);
    if lex_le(a.id, b.id) && lex_le(b.id, a.id) {
        crate::strings::lemma_lex_antisymmetric(a.id, b.id);
    }
}

proof fn lemma_bytes_transitive(a: Seq<u8>, b: Seq<u8>, c: Seq<u8>)
    requires
        bytes_le(a, b),
        bytes_le(b, c),
    ensures
        bytes_le(a, c),
    decreases a.len(),
{
    if a.len() > 0 && b.len() > 0 && c.len() > 0 && a[0] == b[0] && b[0] == c[0] {
        lemma_bytes_transitive(a.drop_first(), b.drop_first(), c.drop_first());
    }
}

proof fn lemma_day_transitive(
    a: RemotePaperView,
    b: RemotePaperView,
    c: RemotePaperView,
    date: Seq<char>,
    keyword: Seq<char>,
)
    requires
        day_le(a, b, date, keyword),
        day_le(b, c, date, keyword),
    ensures
        day_le(a, c, date, keyword),
{
    let x = daily_rank(date, keyword, a.id);
    let y = daily_rank(date, keyword, b.id);
    let z = daily_rank(date, keyword, c.id);
    lemma_bytes_total(x, y);
    lemma_bytes_total(y, z);
    lemma_bytes_total(x, z);
    if x == y && y == z {
        crate::strings::lemma_lex_transitive(a.id, b.id, c.id);
    } else if x != y && y != z {
        lemma_bytes_transitive(x, y, z);
        if x == z {
            lemma_bytes_total(x, y);
        }
    }
}

/// Orders the papers of one keyword for a day. The order does not depend on the
/// order in which they were found.
pub fn shuffle_daily_bucket(papers: &mut Vec<RemotePaper>, feed_date: &str, keyword: &str)
    ensures
        exists|order: Seq<usize>| #[trigger]
            day_order(papers_view(old(papers)@), feed_date@, keyword@, order) && papers_view(
                final(papers)@,
            ) == Seq::new(order.len(), |i: int| papers_view(old(papers)@)[order[i] as int]),
{
    let ghost all = papers_view(papers@);
    let ghost date = feed_date@;
    let ghost key = keyword@;
    let mut ranks: Vec<Vec<u8>> = Vec::new();
    let mut n: usize = 0;
    while n < papers.len()
        invariant
            n <= papers@.len(),
            ranks@.len() == n,
            forall|i: int|
                0 <= i < n ==> (#[trigger] ranks@[i])@ == daily_rank(
                    feed_date@,
                    keyword@,
                    papers@[i].id@,
                ),
        decreases papers@.len() - n,
    {
        ranks.push(daily_paper_rank(feed_date, keyword, papers[n].id.as_str()));
        n = n + 1;
    }
    let mut order: Vec<usize> = Vec::new();
    let mut n: usize = 0;
    while n < papers.len()
        invariant
            n <= papers@.len(),
            all == papers_view(papers@),
            date == feed_date@,
            key == keyword@,
            ranks@.len() == papers@.len(),
            forall|i: int|
                0 <= i < papers@.len() ==> (#[trigger] ranks@[i])@ == daily_rank(
                    date,
                    key,
                    papers@[i].id@,
                ),
            order@.len() == n,
            forall|i: int| 0 <= i < n ==> (#[trigger] order@[i]) < n,
            forall|i: int, j: int|
                0 <= i < j < n ==> day_before(
                    all,
                    date,
                    key,
                    #[trigger] order@[i] as int,
                    #[trigger] order@[j] as int,
                ),
        decreases papers@.len() - n,
    {
        let mut k: usize = n;
        while k > 0 && !comes_at_most(&ranks, papers, order[k - 1], n, Ghost(date), Ghost(key))
            invariant
                k <= n < papers@.len(),
                all == papers_view(papers@),
                ranks@.len() == papers@.len(),
                forall|i: int|
                    0 <= i < papers@.len() ==> (#[trigger] ranks@[i])@ == daily_rank(
                        date,
                        key,
                        papers@[i].id@,
                    ),
                order@.len() == n,
                forall|i: int| 0 <= i < n ==> (#[trigger] order@[i]) < n,
                forall|i: int|
                    k <= i < n ==> !day_le(
                        all[(#[trigger] order@[i]) as int],
                        all[n as int],
                        date,
                        key,
                    ),
            decreases k,
        {
            k = k - 1;
        }
        let ghost before = order@;
        order.insert(k, n);
        proof {
            assert forall|i: int, j: int| 0 <= i < j < n + 1 implies day_before(
                all,
                date,
                key,
                #[trigger] order@[i] as int,
                #[trigger] order@[j] as int,
            ) by {
                let a = if i < k {
                    i
                } else {
                    i - 1
                };
                let b = if j < k {
                    j
                } else {
                    j - 1
                };
                if i == k {
                    assert(order@[j] == before[b]);
                    lemma_day_total(all[before[b] as int], all[n as int], date, key);
                } else if j == k {
                    assert(order@[i] == before[a]);
                    if a < k - 1 {
                        assert(day_before(all, date, key, before[a] as int, before[k - 1] as int));
                        lemma_day_transitive(
                            all[before[a] as int],
                            all[before[k - 1] as int],
                            all[n as int],
                            date,
                            key,
                        );
                    }
                } else {
                    assert(order@[i] == before[a]);
                    assert(order@[j] == before[b]);
                }
            }
            assert forall|i: int| 0 <= i < n + 1 implies (#[trigger] order@[i]) < n + 1 by {
                if i < k {
                    assert(order@[i] == before[i]);
                } else if i > k {
                    assert(order@[i] == before[i - 1]);
                }
            }
        }
        n = n + 1;
    }
    let mut out: Vec<RemotePaper> = Vec::new();
    let mut i: usize = 0;
    while i < order.len()
        invariant
            i <= order@.len() == papers@.len(),
            all == papers_view(papers@),
            forall|j: int| 0 <= j < order@.len() ==> (#[trigger] order@[j]) < papers@.len(),
            out@.len() == i,
            forall|j: int| 0 <= j < i ==> (#[trigger] out@[j])@ == all[order@[j] as int],
        decreases order@.len() - i,
    {
        out.push(papers[order[i]].copy());
        i = i + 1;
    }
    *papers = out;
    assert(day_order(all, date, key, order@));
    assert(papers_view(papers@) =~= Seq::new(
        order@.len(),
        |i: int| all[order@[i] as int],
    ));
}

/// Whether papers stand as they do on one day, with no identifier twice.
pub open spec fn day_sorted(papers: Seq<RemotePaperView>, date: Seq<char>, keyword: Seq<char>) -> bool {
    forall|i: int, j: int|
        0 <= i < j < papers.len() ==> day_le(
            #[trigger] papers[i],
            #[trigger] papers[j],
            date,
            keyword,
        ) && papers[i].id != papers[j].id
}

/// Two lists of the same papers, no identifier twice, are the same once they are
/// ordered for a day: the order they came in does not matter.
pub proof fn lemma_daily_order_unique(
    a: Seq<RemotePaperView>,
    b: Seq<RemotePaperView>,
    date: Seq<char>,
    keyword: Seq<char>,
)
    requires
        day_sorted(a, date, keyword),
        day_sorted(b, date, keyword),
        forall|p: RemotePaperView| a.contains(p) <==> b.contains(p),
    ensures
        a == b,
    decreases a.len(),
{
    if a.len() == 0 {
        if b.len() > 0 {
            assert(b.contains(b[0]));
        }
        assert(a =~= b);
    } else {
        assert(a.contains(a[0]));
        assert(b.len() > 0);
        assert(b.contains(b[0]));
        assert(a.contains(b[0]));
        assert(b.contains(a[0]));
        let i = a.index_of(b[0]);
        let j = b.index_of(a[0]);
        if i > 0 && j > 0 {
            assert(day_le(a[0], a[i], date, keyword));
            assert(day_le(b[0], b[j], date, keyword));
            lemma_day_total(a[0], b[0], date, keyword);
            assert(a[0].id == a[i].id);
        }
        assert(a[0] == b[0]);
        let x = a.drop_first();
        let y = b.drop_first();
        assert forall|p: RemotePaperView| x.contains(p) <==> y.contains(p) by {
            if x.contains(p) {
                let k = x.index_of(p);
                assert(a[k + 1] == p);
                assert(a.contains(p));
                let l = b.index_of(p);
                if l == 0 {
                    assert(a[0].id != a[k + 1].id);
                }
                assert(y[l - 1] == p);
            }
            if y.contains(p) {
                let k = y.index_of(p);
                assert(b[k + 1] == p);
                assert(b.contains(p));
                let l = a.index_of(p);
                if l == 0 {
                    assert(b[0].id != b[k + 1].id);
                }
                assert(x[l - 1] == p);
            }
        }
        assert(day_sorted(x, date, keyword)) by {
            assert forall|i: int, j: int| 0 <= i < j < x.len() implies day_le(
                #[trigger] x[i],
                #[trigger] x[j],
                date,
                keyword,
            ) && x[i].id != x[j].id by {
                assert(x[i] == a[i + 1] && x[j] == a[j + 1]);
            }
        }
        assert(day_sorted(y, date, keyword)) by {
            assert forall|i: int, j: int| 0 <= i < j < y.len() implies day_le(
                #[trigger] y[i],
                #[trigger] y[j],
                date,
                keyword,
            ) && y[i].id != y[j].id by {
                assert(y[i] == b[i + 1] && y[j] == b[j + 1]);
            }
        }
        lemma_daily_order_unique(x, y, date, keyword);
        assert(a =~= seq![a[0]] + x);
        assert(b =~= seq![b[0]] + y);
    }
}

/// End of the run of letters and digits that starts at `k`.
pub open spec fn term_end(s: Seq<char>, k: int) -> int
    decreases s.len() - k,
{
    if 0 <= k < s.len() && alphanumeric(s[k]) {
        term_end(s, k + 1)
    } else {
        k
    }
}

pub(crate) proof fn lemma_term_end(s: Seq<char>, k: int)
    requires
        0 <= k <= s.len(),
    ensures
        k <= term_end(s, k) <= s.len(),
    decreases s.len() - k,
{
    if k < s.len() && alphanumeric(s[k]) {
        lemma_term_end(s, k + 1);
    }
}

/// The runs of letters and digits from position `k` on, in lower case.
pub open spec fn terms_from(s: Seq<char>, k: int) -> Seq<Seq<char>>
    decreases s.len() - k,
    via terms_from_decreases
{
    if k < 0 || k >= s.len() {
        Seq::empty()
    } else if alphanumeric(s[k]) {
        seq![lower(s.subrange(k, term_end(s, k)))] + terms_from(s, term_end(s, k))
    } else {
        terms_from(s, k + 1)
    }
}

#[via_fn]
proof fn terms_from_decreases(s: Seq<char>, k: int) {
    if 0 <= k < s.len() {
        lemma_term_end(s, k);
        if alphanumeric(s[k]) {
            lemma_term_end(s, k + 1);
        }
    }
}

/// The words of a keyword, in lower case.
pub fn keyword_terms(keyword: &str) -> (r: Vec<String>)
    ensures
        texts(r@) == terms_from(keyword@, 0),
{
    let s = to_chars(keyword);
    let n: usize = s.len();
    let mut r: Vec<String> = Vec::new();
    let mut k: usize = 0;
    assert(texts(r@) + terms_from(s@, 0) =~= terms_from(s@, 0));
    while k < n
        invariant
            k <= n == s@.len(),
            s@ == keyword@,
            texts(r@) + terms_from(s@, k as int) == terms_from(keyword@, 0),
        decreases n - k,
    {
        if is_alphanumeric(s[k]) {
            let mut e: usize = k;
            while e < n && is_alphanumeric(s[e])
                invariant
                    k <= e <= n == s@.len(),
                    term_end(s@, k as int) == term_end(s@, e as int),
                decreases n - e,
            {
                e = e + 1;
            }
            proof {
                lemma_term_end(s@, k + 1);
            }
            let word = from_range(&s, k, e);
            let ghost before = texts(r@);
            let term = to_lower(word.as_str());
            r.push(term);
            proof {
                assert(texts(r@) =~= before.push(term@));
                assert(before + terms_from(s@, k as int) =~= texts(r@) + terms_from(s@, e as int));
            }
            k = e;
        } else {
            k = k + 1;
        }
    }
    assert(texts(r@) + terms_from(s@, k as int) =~= texts(r@));
    r
}

/// How many of the first `n` terms a title holds.
pub open spec fn title_strength(title: Seq<char>, terms: Seq<Seq<char>>, n: int) -> nat
    decreases n,
{
    if n <= 0 {
        0
    } else {
        title_strength(title, terms, n - 1) + if occurs(lower(title), terms[n - 1]) {
            1nat
        } else {
            0nat
        }
    }
}

/// How many of the terms a title holds.
pub fn title_match_strength(title: &str, terms: &Vec<String>) -> (r: usize)
    ensures
        r == title_strength(title@, texts(terms@), terms@.len() as int),
        r <= terms@.len(),
{
    let title = to_lower(title);
    let mut count: usize = 0;
    let mut i: usize = 0;
    let ghost all = texts(terms@);
    let ghost t = title@;
    while i < terms.len()
        invariant
            i <= terms@.len(),
            all == texts(terms@),
            title@ == t,
            count <= i,
            forall|x: Seq<char>|
                lower(x) == t ==> count == title_strength(x, all, i as int),
        decreases terms@.len() - i,
    {
        if contains_text(title.as_str(), terms[i].as_str()) {
            count = count + 1;
        }
        i = i + 1;
    }
    count
}

/// How a paper matches a keyword.
#[derive(Clone, Copy, Debug, PartialEq, Eq, Structural)]
pub struct KeywordMatch {
    pub keyword_index: usize,
    pub title_term_matches: usize,
    pub full_title_match: bool,
}

/// A paper and the keywords that found it.
#[derive(Debug)]
pub struct DashboardCandidate {
    pub paper: RemotePaper,
    pub matches: Vec<KeywordMatch>,
    pub daily_rank: Vec<u8>,
}

/// A [`DashboardCandidate`] by its texts.
pub struct CandidateView {
    pub paper: RemotePaperView,
    pub matches: Seq<KeywordMatch>,
    pub daily_rank: Seq<u8>,
}

impl View for DashboardCandidate {
    type V = CandidateView;

    open spec fn view(&self) -> CandidateView {
        CandidateView {
            paper: self.paper@,
            matches: self.matches@,
            daily_rank: self.daily_rank@,
        }
    }
}

/// The candidates of a list by their texts.
pub open spec fn candidates_view(v: Seq<DashboardCandidate>) -> Seq<CandidateView> {
    Seq::new(v.len(), |i: int| v[i]@)
}

/// The papers that a keyword found.
#[derive(Debug)]
pub struct Bucket {
    pub keyword: String,
    pub papers: Vec<RemotePaper>,
}

/// How a title matches the keyword with an index.
pub open spec fn match_of(index: usize, title: Seq<char>, keyword: Seq<char>) -> KeywordMatch {
    let terms = terms_from(keyword, 0);
    let n = title_strength(title, terms, terms.len() as int);
    KeywordMatch {
        keyword_index: index,
        title_term_matches: n as usize,
        full_title_match: terms.len() > 0 && n == terms.len(),
    }
}

/// Position of the candidate with an identifier, from position `i` on.
pub open spec fn candidate_place(cands: Seq<CandidateView>, id: Seq<char>, i: int) -> Option<int>
    decreases cands.len() - i,
{
    if i >= cands.len() {
        None
    } else if cands[i].paper.id == id {
        Some(i)
    } else {
        candidate_place(cands, id, i + 1)
    }
}

/// Whether a keyword is among the matches.
pub open spec fn matches_keyword(matches: Seq<KeywordMatch>, index: usize) -> bool {
    exists|i: int| 0 <= i < matches.len() && (#[trigger] matches[i]).keyword_index == index
}

/// The candidates with one more paper of a keyword: a paper that is there already
/// gets one match more, unless it has that one too.
pub open spec fn with_paper(
    cands: Seq<CandidateView>,
    paper: RemotePaperView,
    index: usize,
    keyword: Seq<char>,
    date: Seq<char>,
) -> Seq<CandidateView> {
    let m = match_of(index, paper.title, keyword);
    match candidate_place(cands, paper.id, 0) {
        Some(k) => if matches_keyword(cands[k].matches, index) {
            cands
        } else {
            cands.update(k, CandidateView { matches: cands[k].matches.push(m), ..cands[k] })
        },
        None => cands.push(
            CandidateView {
                paper,
                matches: seq![m],
                daily_rank: daily_rank(date, "dashboard"@, paper.id),
            },
        ),
    }
}

/// The candidates with the first `n` papers of a keyword.
pub open spec fn with_papers(
    cands: Seq<CandidateView>,
    papers: Seq<RemotePaperView>,
    n: int,
    index: usize,
    keyword: Seq<char>,
    date: Seq<char>,
) -> Seq<CandidateView>
    decreases n,
{
    if n <= 0 {
        cands
    } else {
        with_paper(
            with_papers(cands, papers, n - 1, index, keyword, date),
            papers[n - 1],
            index,
            keyword,
            date,
        )
    }
}

/// The candidates of the first `n` keywords.
pub open spec fn collected(buckets: Seq<Bucket>, n: int, date: Seq<char>) -> Seq<CandidateView>
    decreases n,
{
    if n <= 0 {
        Seq::empty()
    } else {
        with_papers(
            collected(buckets, n - 1, date),
            papers_view(buckets[n - 1].papers@),
            buckets[n - 1].papers@.len() as int,
            (n - 1) as usize,
            buckets[n - 1].keyword@,
            date,
        )
    }
}

/// Whether all matches are of the first `n` keywords, and none is there twice.
pub open spec fn matches_ok(cands: Seq<CandidateView>, n: int) -> bool {
    forall|c: int|
        #![trigger cands[c]]
        0 <= c < cands.len() ==> {
            &&& forall|i: int|
                0 <= i < cands[c].matches.len() ==> (#[trigger] cands[c].matches[i]).keyword_index
                    < n
            &&& forall|i: int, j: int|
                0 <= i < j < cands[c].matches.len() ==> (
                #[trigger] cands[c].matches[i]).keyword_index != (
                #[trigger] cands[c].matches[j]).keyword_index
        }
}

fn find_candidate(cands: &Vec<DashboardCandidate>, id: &str) -> (r: Option<usize>)
    ensures
        r is Some <==> candidate_place(candidates_view(cands@), id@, 0) is Some,
        r matches Some(k) ==> candidate_place(candidates_view(cands@), id@, 0) == Some(k as int)
            && k < cands@.len(),
{
    let mut i: usize = 0;
    while i < cands.len()
        invariant
            i <= cands@.len(),
            candidate_place(candidates_view(cands@), id@, 0) == candidate_place(
                candidates_view(cands@),
                id@,
                i as int,
            ),
        decreases cands@.len() - i,
    {
        if same_text(cands[i].paper.id.as_str(), id) {
            return Some(i);
        }
        i = i + 1;
    }
    None
}

fn has_match(matches: &Vec<KeywordMatch>, index: usize) -> (r: bool)
    ensures
        r == matches_keyword(matches@, index),
{
    let mut i: usize = 0;
    while i < matches.len()
        invariant
            i <= matches@.len(),
            forall|j: int| 0 <= j < i ==> (#[trigger] matches@[j]).keyword_index != index,
        decreases matches@.len() - i,
    {
        if matches[i].keyword_index == index {
            return true;
        }
        i = i + 1;
    }
    false
}

fn add_paper(
    cands: &mut Vec<DashboardCandidate>,
    paper: &RemotePaper,
    index: usize,
    terms: &Vec<String>,
    date: &str,
    Ghost(keyword): Ghost<Seq<char>>,
    n: usize,
)
    requires
        texts(terms@) == terms_from(keyword, 0),
        matches_ok(candidates_view(old(cands)@), n as int),
        index < n,
    ensures
        candidates_view(final(cands)@) == with_paper(
            candidates_view(old(cands)@),
            paper@,
            index,
            keyword,
            date@,
        ),
        matches_ok(candidates_view(final(cands)@), n as int),
{
    let ghost before = candidates_view(cands@);
    let strength: usize = title_match_strength(paper.title.as_str(), terms);
    let m = KeywordMatch {
        keyword_index: index,
        title_term_matches: strength,
        full_title_match: terms.len() > 0 && strength == terms.len(),
    };
    assert(texts(terms@).len() == terms@.len());
    assert(m == match_of(index, paper.title@, keyword));
    match find_candidate(cands, paper.id.as_str()) {
        Some(k) => {
            if !has_match(&cands[k].matches, index) {
                let ghost c = before[k as int];
                cands[k].matches.push(m);
                let ghost now = candidates_view(cands@);
                proof {
                    assert(now =~= before.update(
                        k as int,
                        CandidateView { matches: c.matches.push(m), ..c },
                    ));
                    assert forall|x: int| #![trigger now[x]] 0 <= x < now.len() implies {
                        &&& forall|i: int|
                            0 <= i < now[x].matches.len() ==> (
                            #[trigger] now[x].matches[i]).keyword_index < n
                        &&& forall|i: int, j: int|
                            0 <= i < j < now[x].matches.len() ==> (
                            #[trigger] now[x].matches[i]).keyword_index != (
                            #[trigger] now[x].matches[j]).keyword_index
                    } by {
                        if x == k {
                            assert(now[x].matches == c.matches.push(m));
                            assert forall|i: int|
                                0 <= i < now[x].matches.len() implies (
                            #[trigger] now[x].matches[i]).keyword_index < n by {
                                if i < c.matches.len() {
                                    assert(c.matches[i].keyword_index < n);
                                }
                            }
                            assert forall|i: int, j: int|
                                0 <= i < j < now[x].matches.len() implies (
                            #[trigger] now[x].matches[i]).keyword_index != (
                            #[trigger] now[x].matches[j]).keyword_index by {
                                assert(c.matches[i] == now[x].matches[i]);
                                if j < c.matches.len() {
                                    assert(c.matches[j] == now[x].matches[j]);
                                }
                            }
                        } else {
                            assert(now[x] == before[x]);
                        }
                    }
                }
            }
        },
        None => {
            let rank = daily_paper_rank(date, "dashboard", paper.id.as_str());
            let mut matches: Vec<KeywordMatch> = Vec::new();
            matches.push(m);
            assert(matches@ =~= seq![m]);
            cands.push(DashboardCandidate { paper: paper.copy(), matches, daily_rank: rank });
            proof {
                let now = candidates_view(cands@);
                assert(now =~= before.push(now.last()));
                assert forall|x: int| #![trigger now[x]] 0 <= x < now.len() implies {
                    &&& forall|i: int|
                        0 <= i < now[x].matches.len() ==> (
                        #[trigger] now[x].matches[i]).keyword_index < n
                    &&& forall|i: int, j: int|
                        0 <= i < j < now[x].matches.len() ==> (
                        #[trigger] now[x].matches[i]).keyword_index != (
                        #[trigger] now[x].matches[j]).keyword_index
                } by {
                    if x < before.len() {
                        assert(now[x] == before[x]);
                    }
                }
            }
        },
    }
}

fn collect(buckets: &Vec<Bucket>, date: &str) -> (cands: Vec<DashboardCandidate>)
    ensures
        candidates_view(cands@) == collected(buckets@, buckets@.len() as int, date@),
        matches_ok(candidates_view(cands@), buckets@.len() as int),
{
    let mut cands: Vec<DashboardCandidate> = Vec::new();
    let total: usize = buckets.len();
    let mut k: usize = 0;
    assert(candidates_view(cands@) =~= Seq::empty());
    while k < total
        invariant
            k <= total == buckets@.len(),
            candidates_view(cands@) == collected(buckets@, k as int, date@),
            matches_ok(candidates_view(cands@), total as int),
        decreases total - k,
    {
        let terms = keyword_terms(buckets[k].keyword.as_str());
        let ghost first = candidates_view(cands@);
        let ghost papers = papers_view(buckets@[k as int].papers@);
        let mut i: usize = 0;
        while i < buckets[k].papers.len()
            invariant
                k < total == buckets@.len(),
                i <= buckets@[k as int].papers@.len(),
                papers == papers_view(buckets@[k as int].papers@),
                texts(terms@) == terms_from(buckets@[k as int].keyword@, 0),
                candidates_view(cands@) == with_papers(
                    first,
                    papers,
                    i as int,
                    k,
                    buckets@[k as int].keyword@,
                    date@,
                ),
                matches_ok(candidates_view(cands@), total as int),
            decreases buckets@[k as int].papers@.len() - i,
        {
            add_paper(
                &mut cands,
                &buckets[k].papers[i],
                k,
                &terms,
                date,
                Ghost(buckets@[k as int].keyword@),
                total,
            );
            i = i + 1;
        }
        k = k + 1;
    }
    cands
}

/// How many of the first `n` candidates a keyword has found.
pub open spec fn found_by(cands: Seq<CandidateView>, index: usize, n: int) -> nat
    decreases n,
{
    if n <= 0 {
        0
    } else {
        found_by(cands, index, n - 1) + if matches_keyword(cands[n - 1].matches, index) {
            1nat
        } else {
            0nat
        }
    }
}

/// How many candidates each of `n` keywords has found.
pub open spec fn availability(cands: Seq<CandidateView>, n: nat) -> Seq<usize> {
    Seq::new(n, |k: int| found_by(cands, k as usize, cands.len() as int) as usize)
}

fn available_by_keyword(cands: &Vec<DashboardCandidate>, n: usize) -> (r: Vec<usize>)
    ensures
        r@ == availability(candidates_view(cands@), n as nat),
{
    let mut r: Vec<usize> = Vec::new();
    let ghost all = candidates_view(cands@);
    let mut k: usize = 0;
    while k < n
        invariant
            k <= n,
            all == candidates_view(cands@),
            r@.len() == k,
            forall|j: int| 0 <= j < k ==> r@[j] == availability(all, n as nat)[j],
        decreases n - k,
    {
        let mut count: usize = 0;
        let mut i: usize = 0;
        while i < cands.len()
            invariant
                i <= cands@.len(),
                all == candidates_view(cands@),
                count == found_by(all, k, i as int),
                count <= i,
            decreases cands@.len() - i,
        {
            if has_match(&cands[i].matches, k) {
                count = count + 1;
            }
            i = i + 1;
        }
        r.push(count);
        k = k + 1;
    }
    assert(r@ =~= availability(all, n as nat));
    r
}

/// How many papers each keyword has found, papers that several of them found
/// counting for each.
pub fn keyword_availability(buckets: &Vec<Bucket>, feed_date: &str) -> (r: Vec<usize>)
    ensures
        r@ == availability(
            collected(buckets@, buckets@.len() as int, feed_date@),
            buckets@.len(),
        ),
{
    let cands = collect(buckets, feed_date);
    available_by_keyword(&cands, buckets.len())
}

/// How many of the first `n` keywords have found anything.
pub open spec fn active_to(available: Seq<usize>, n: int) -> nat
    decreases n,
{
    if n <= 0 {
        0
    } else {
        active_to(available, n - 1) + if available[n - 1] > 0 {
            1nat
        } else {
            0nat
        }
    }
}

/// How many keywords have found anything.
pub open spec fn active_count(available: Seq<usize>) -> nat {
    active_to(available, available.len() as int)
}

/// The weight of a keyword: an earlier one weighs a little more, and one without
/// papers nothing.
pub open spec fn priority_weight(available: Seq<usize>, k: int) -> nat {
    if available[k] == 0 {
        0
    } else {
        (active_count(available) * 10 + active_count(available) - active_to(available, k) - 1) as nat
    }
}

pub(crate) proof fn lemma_active_to(available: Seq<usize>, i: int, j: int)
    requires
        0 <= i <= j <= available.len(),
    ensures
        active_to(available, i) <= active_to(available, j) <= active_to(available, i) + (j - i),
        i < j && available[i] > 0 ==> active_to(available, i) < active_to(available, j),
    decreases j - i,
{
    if i < j {
        lemma_active_to(available, i, j - 1);
    }
}

/// Weights are positive for keywords with papers, and an earlier keyword's is
/// larger, by less than a tenth.
pub proof fn lemma_weights_are_gentle(available: Seq<usize>, i: int, j: int)
    requires
        0 <= i < j < available.len(),
        available[i] > 0,
        available[j] > 0,
    ensures
        priority_weight(available, j) > 0,
        priority_weight(available, i) > priority_weight(available, j),
        10 * (priority_weight(available, i) - priority_weight(available, j)) < priority_weight(
            available,
            j,
        ),
{
    let n = available.len() as int;
    lemma_active_to(available, i, j);
    lemma_active_to(available, j, n);
    lemma_active_to(available, 0, i);
}

fn count_active(available: &Vec<usize>) -> (r: usize)
    ensures
        r == active_count(available@),
        r <= available@.len(),
{
    let mut r: usize = 0;
    let mut i: usize = 0;
    while i < available.len()
        invariant
            i <= available@.len(),
            r == active_to(available@, i as int),
            r <= i,
        decreases available@.len() - i,
    {
        if available[i] > 0 {
            r = r + 1;
        }
        i = i + 1;
    }
    r
}

/// The weight of each keyword.
pub fn keyword_priority_weights(available: &Vec<usize>) -> (r: Vec<usize>)
    requires
        11 * available@.len() <= usize::MAX,
    ensures
        r@.len() == available@.len(),
        forall|k: int| 0 <= k < r@.len() ==> #[trigger] r@[k] == priority_weight(available@, k),
        forall|k: int| 0 <= k < r@.len() ==> #[trigger] r@[k] <= 11 * available@.len(),
{
    let active: usize = count_active(available);
    let mut rank: usize = 0;
    let mut r: Vec<usize> = Vec::new();
    let mut i: usize = 0;
    while i < available.len()
        invariant
            i <= available@.len(),
            11 * available@.len() <= usize::MAX,
            active == active_count(available@),
            active <= available@.len(),
            rank == active_to(available@, i as int),
            r@.len() == i,
            forall|k: int| 0 <= k < i ==> #[trigger] r@[k] == priority_weight(available@, k),
            forall|k: int| 0 <= k < i ==> #[trigger] r@[k] <= 11 * available@.len(),
        decreases available@.len() - i,
    {
        if available[i] == 0 {
            r.push(0);
        } else {
            proof {
                lemma_active_to(available@, i as int, available@.len() as int);
            }
            r.push(active * 10 + (active - rank - 1));
            rank = rank + 1;
        }
        i = i + 1;
    }
    r
}

/// The first eight bytes of the rank of a keyword, as a number: what its draw for
/// the day is made from.
pub fn keyword_draw_seed(feed_date: &str, keyword: &str) -> (r: u64)
    ensures
        big_endian(r as nat, 8) == daily_rank(feed_date@, "keyword-window"@, keyword@).take(8),
{
    let rank = daily_paper_rank(feed_date, "keyword-window", keyword);
    let mut seed: u64 = 0;
    let mut i: usize = 0;
    assert(big_endian(0, 0) =~= rank@.take(0));
    while i < 8
        invariant
            i <= 8,
            rank@.len() == 32,
            big_endian(seed as nat, i as nat) == rank@.take(i as int),
            (i == 0 ==> seed == 0) && (i == 1 ==> seed <= 0xff) && (i == 2 ==> seed <= 0xffff) && (i
                == 3 ==> seed <= 0xff_ffff) && (i == 4 ==> seed <= 0xffff_ffff) && (i == 5 ==> seed
                <= 0xff_ffff_ffff) && (i == 6 ==> seed <= 0xffff_ffff_ffff) && (i == 7 ==> seed
                <= 0xff_ffff_ffff_ffff),
        decreases 8 - i,
    {
        let b: u8 = rank[i];
        let next: u64 = seed * 256 + b as u64;
        proof {
            assert(next as nat / 256 == seed as nat);
            assert((next as nat % 256) as u8 == b);
            assert(rank@.take(i + 1) =~= rank@.take(i as int).push(b));
            assert(big_endian(next as nat, (i + 1) as nat) =~= big_endian(
                seed as nat,
                i as nat,
            ).push(b));
        }
        seed = next;
        i = i + 1;
    }
    seed
}

/// How many of the first `n` keywords with papers come before keyword `k` by `key`:
/// larger ones first, and otherwise in their order.
pub open spec fn ahead(available: Seq<usize>, key: spec_fn(int) -> int, k: int, n: int) -> nat
    decreases n,
{
    if n <= 0 {
        0
    } else {
        ahead(available, key, k, n - 1) + if available[n - 1] > 0 && (key(n - 1) > key(k) || (key(
            n - 1,
        ) == key(k) && n - 1 < k)) {
            1nat
        } else {
            0nat
        }
    }
}

/// Sum of the weights of the first `n` keywords.
pub open spec fn weight_sum(available: Seq<usize>, n: int) -> nat
    decreases n,
{
    if n <= 0 {
        0
    } else {
        weight_sum(available, n - 1) + priority_weight(available, n - 1)
    }
}

/// What keyword `k` gets of the places that are left when every keyword has one.
pub open spec fn share(available: Seq<usize>, remaining: int, k: int) -> int {
    remaining * priority_weight(available, k) / weight_sum(available, available.len() as int) as int
}

/// What is left over of the share of keyword `k`.
pub open spec fn share_rest(available: Seq<usize>, remaining: int, k: int) -> int {
    remaining * priority_weight(available, k) % weight_sum(available, available.len() as int) as int
}

/// Sum of the shares of the first `n` keywords.
pub open spec fn share_sum(available: Seq<usize>, remaining: int, n: int) -> int
    decreases n,
{
    if n <= 0 {
        0
    } else {
        share_sum(available, remaining, n - 1) + if available[n - 1] > 0 {
            share(available, remaining, n - 1)
        } else {
            0
        }
    }
}

/// How many papers keyword `k` should have in a feed of `limit` papers. With more
/// keywords than papers, those with the largest draws of the day have one each.
/// Otherwise every keyword has one, and the others are shared out by weight; what
/// does not divide goes to the largest remainders.
pub open spec fn target(available: Seq<usize>, draws: Seq<u64>, limit: int, k: int) -> int {
    let n = available.len() as int;
    let active = active_count(available) as int;
    let remaining = limit - active;
    if available[k] == 0 {
        0
    } else if active > limit {
        if ahead(available, |i: int| draws[i] as int, k, n) < limit {
            1
        } else {
            0
        }
    } else if remaining == 0 {
        1
    } else {
        1 + share(available, remaining, k) + if ahead(
            available,
            |i: int| share_rest(available, remaining, i),
            k,
            n,
        ) < remaining - share_sum(available, remaining, n) {
            1int
        } else {
            0int
        }
    }
}

/// Whether the numbers of a feed fit the machine.
pub open spec fn feed_fits(keywords: int, limit: int) -> bool {
    11 * keywords * (limit + 1) <= usize::MAX && 11 * keywords * keywords <= usize::MAX && 11
        * keywords <= usize::MAX
}

proof fn lemma_weight_sum(available: Seq<usize>, n: int)
    requires
        0 <= n <= available.len(),
    ensures
        weight_sum(available, n) <= n * (11 * available.len()),
        forall|k: int| 0 <= k < n ==> #[trigger] priority_weight(available, k) <= weight_sum(
            available,
            n,
        ),
        forall|k: int|
            0 <= k < n && available[k] > 0 ==> #[trigger] priority_weight(available, k) > 0,
    decreases n,
{
    if n > 0 {
        lemma_weight_sum(available, n - 1);
        lemma_active_to(available, n - 1, available.len() as int);
        lemma_active_to(available, 0, n - 1);
        lemma_active_to(available, 0, available.len() as int);
        assert(priority_weight(available, n - 1) <= 11 * available.len());
        assert((n - 1) * (11 * available.len()) + 11 * available.len() == n * (11
            * available.len())) by (nonlinear_arith);
    }
}

proof fn lemma_share(available: Seq<usize>, remaining: int, k: int)
    requires
        0 <= k < available.len(),
        available[k] > 0,
        0 <= remaining,
    ensures
        weight_sum(available, available.len() as int) > 0,
        0 <= share(available, remaining, k) <= remaining,
        0 <= share_rest(available, remaining, k) < weight_sum(available, available.len() as int),
{
    let total = weight_sum(available, available.len() as int) as int;
    let w = priority_weight(available, k) as int;
    lemma_weight_sum(available, available.len() as int);
    assert(0 < w <= total);
    assert(0 <= remaining * w / total <= remaining && 0 <= remaining * w % total < total)
        by (nonlinear_arith)
        requires
            0 <= remaining,
            0 < w <= total,
    ;
}

/// The shares do not add up to more than there is.
pub proof fn lemma_shares_fit(available: Seq<usize>, remaining: int, n: int)
    requires
        0 <= n <= available.len(),
        0 <= remaining,
        weight_sum(available, available.len() as int) > 0,
    ensures
        0 <= share_sum(available, remaining, n),
        share_sum(available, remaining, n) * weight_sum(available, available.len() as int)
            <= remaining * weight_sum(available, n),
    decreases n,
{
    let total = weight_sum(available, available.len() as int) as int;
    if n > 0 {
        lemma_shares_fit(available, remaining, n - 1);
        let w = priority_weight(available, n - 1) as int;
        let s = share_sum(available, remaining, n - 1);
        let sum = weight_sum(available, n - 1) as int;
        if available[n - 1] > 0 {
            lemma_share(available, remaining, n - 1);
            let q = share(available, remaining, n - 1);
            assert(q * total <= remaining * w) by (nonlinear_arith)
                requires
                    q == remaining * w / total,
                    total > 0,
            ;
            assert((s + q) * total <= remaining * (sum + w)) by (nonlinear_arith)
                requires
                    q * total <= remaining * w,
                    s * total <= remaining * sum,
            ;
        } else {
            assert(w == 0);
            assert(remaining * sum == remaining * (sum + w));
        }
    } else {
        assert(share_sum(available, remaining, n) * total == 0) by (nonlinear_arith)
            requires
                share_sum(available, remaining, n) == 0,
        ;
        assert(remaining * weight_sum(available, n) == 0) by (nonlinear_arith)
            requires
                weight_sum(available, n) == 0,
        ;
    }
}

fn count_ahead(available: &Vec<usize>, keys: &Vec<u64>, k: usize, Ghost(key): Ghost<spec_fn(int) -> int>) -> (r: usize)
    requires
        k < available@.len() == keys@.len(),
        forall|i: int|
            0 <= i < keys@.len() && available@[i] > 0 ==> #[trigger] keys@[i] == key(i),
        available@[k as int] > 0,
    ensures
        r == ahead(available@, key, k as int, available@.len() as int),
{
    let mut r: usize = 0;
    let mut i: usize = 0;
    assert(keys@[k as int] == key(k as int));
    while i < available.len()
        invariant
            i <= available@.len() == keys@.len(),
            k < available@.len(),
            keys@[k as int] == key(k as int),
            forall|i: int|
                0 <= i < keys@.len() && available@[i] > 0 ==> #[trigger] keys@[i] == key(i),
            r == ahead(available@, key, k as int, i as int),
            r <= i,
        decreases available@.len() - i,
    {
        if available[i] > 0 {
            assert(keys@[i as int] == key(i as int));
            if keys[i] > keys[k] || (keys[i] == keys[k] && i < k) {
                r = r + 1;
            }
        }
        i = i + 1;
    }
    r
}

/// How many papers each keyword should have in the feed. `draws` are the draws of
/// the day, one for each keyword; they matter only where there are more keywords
/// than papers.
pub fn keyword_representation_targets(available: &Vec<usize>, draws: &Vec<u64>, limit: usize) -> (r:
    Vec<usize>)
    requires
        draws@.len() == available@.len(),
        feed_fits(available@.len() as int, limit as int),
    ensures
        r@.len() == available@.len(),
        forall|k: int|
            0 <= k < r@.len() ==> #[trigger] r@[k] == target(
                available@,
                draws@,
                limit as int,
                k,
            ),
        forall|k: int| 0 <= k < r@.len() ==> #[trigger] r@[k] <= limit + 1,
{
    let n: usize = available.len();
    let active: usize = count_active(available);
    let mut targets: Vec<usize> = Vec::new();
    if active > limit {
        let ghost key = |i: int| draws@[i] as int;
        let mut k: usize = 0;
        while k < n
            invariant
                k <= n == available@.len() == draws@.len(),
                active == active_count(available@),
                active > limit,
                key == (|i: int| draws@[i] as int),
                targets@.len() == k,
                forall|j: int|
                    0 <= j < k ==> #[trigger] targets@[j] == target(
                        available@,
                        draws@,
                        limit as int,
                        j,
                    ),
                forall|j: int| 0 <= j < k ==> #[trigger] targets@[j] <= limit + 1,
            decreases n - k,
        {
            if available[k] == 0 {
                targets.push(0);
            } else if count_ahead(available, draws, k, Ghost(key)) < limit {
                targets.push(1);
            } else {
                targets.push(0);
            }
            k = k + 1;
        }
        return targets;
    }
    let remaining: usize = limit - active;
    let weights = keyword_priority_weights(available);
    let mut total: usize = 0;
    let mut i: usize = 0;
    while i < n
        invariant
            i <= n == available@.len() == weights@.len(),
            forall|k: int|
                0 <= k < weights@.len() ==> #[trigger] weights@[k] == priority_weight(
                    available@,
                    k,
                ),
            feed_fits(n as int, limit as int),
            total == weight_sum(available@, i as int),
        decreases n - i,
    {
        proof {
            lemma_weight_sum(available@, i + 1);
            assert((i + 1) * (11 * n) <= 11 * n * n) by (nonlinear_arith)
                requires
                    i + 1 <= n,
            ;
        }
        total = total + weights[i];
        i = i + 1;
    }
    let mut rests: Vec<u64> = Vec::new();
    let mut given: usize = 0;
    let ghost rem = remaining as int;
    let ghost key = |i: int| share_rest(available@, rem, i);
    let mut i: usize = 0;
    while i < n
        invariant
            i <= n == available@.len() == weights@.len(),
            forall|k: int|
                0 <= k < weights@.len() ==> #[trigger] weights@[k] == priority_weight(
                    available@,
                    k,
                ),
            forall|k: int| 0 <= k < weights@.len() ==> #[trigger] weights@[k] <= 11 * n,
            feed_fits(n as int, limit as int),
            remaining <= limit,
            rem == remaining,
            total == weight_sum(available@, n as int),
            rests@.len() == i,
            key == (|i: int| share_rest(available@, rem, i)),
            forall|j: int|
                0 <= j < i && available@[j] > 0 ==> #[trigger] rests@[j] == key(j),
            given == share_sum(available@, rem, i as int),
        decreases n - i,
    {
        if available[i] > 0 {
            proof {
                lemma_share(available@, rem, i as int);
                lemma_shares_fit(available@, rem, i + 1);
                lemma_weight_sum_mono(available@, i + 1, n as int);
                let a = share_sum(available@, rem, i + 1);
                let w = weight_sum(available@, i + 1) as int;
                assert(a <= rem) by (nonlinear_arith)
                    requires
                        a * total <= rem * w,
                        0 <= w <= total,
                        0 < total,
                        0 <= rem,
                ;
                assert(remaining * weights@[i as int] <= 11 * n * (limit + 1)) by (nonlinear_arith)
                    requires
                        remaining <= limit,
                        weights@[i as int] <= 11 * n,
                ;
                assert(0 <= remaining * weights@[i as int]) by (nonlinear_arith);
            }
            let numerator: usize = remaining * weights[i];
            given = given + numerator / total;
            rests.push((numerator % total) as u64);
        } else {
            rests.push(0);
        }
        i = i + 1;
    }
    proof {
        if active > 0 {
            lemma_active_exists(available@, n as int);
            let k = choose|k: int| 0 <= k < n && available@[k] > 0;
            lemma_share(available@, rem, k);
            lemma_shares_fit(available@, rem, n as int);
            let a = share_sum(available@, rem, n as int);
            assert(a <= rem) by (nonlinear_arith)
                requires
                    a * total <= rem * total,
                    0 < total,
            ;
        } else {
            lemma_no_shares(available@, rem, n as int);
        }
    }
    let extra: usize = remaining - given;
    let mut k: usize = 0;
    while k < n
        invariant
            k <= n == available@.len() == weights@.len() == rests@.len() == draws@.len(),
            forall|k: int|
                0 <= k < weights@.len() ==> #[trigger] weights@[k] == priority_weight(
                    available@,
                    k,
                ),
            forall|k: int| 0 <= k < weights@.len() ==> #[trigger] weights@[k] <= 11 * n,
            feed_fits(n as int, limit as int),
            active == active_count(available@),
            active <= limit,
            remaining == limit - active,
            rem == remaining,
            total == weight_sum(available@, n as int),
            key == (|i: int| share_rest(available@, rem, i)),
            forall|j: int|
                0 <= j < n && available@[j] > 0 ==> #[trigger] rests@[j] == key(j),
            extra == remaining - share_sum(available@, rem, n as int),
            targets@.len() == k,
            forall|j: int|
                0 <= j < k ==> #[trigger] targets@[j] == target(
                    available@,
                    draws@,
                    limit as int,
                    j,
                ),
            forall|j: int| 0 <= j < k ==> #[trigger] targets@[j] <= limit + 1,
        decreases n - k,
    {
        if available[k] == 0 {
            targets.push(0);
        } else if remaining == 0 {
            proof {
                lemma_active_to(available@, k as int, n as int);
            }
            targets.push(1);
        } else {
            proof {
                lemma_share(available@, rem, k as int);
                lemma_active_to(available@, k as int, n as int);
                assert(remaining * weights@[k as int] <= 11 * n * (limit + 1)) by (nonlinear_arith)
                    requires
                        remaining <= limit,
                        weights@[k as int] <= 11 * n,
                ;
                assert(0 <= remaining * weights@[k as int]) by (nonlinear_arith);
            }
            let share: usize = remaining * weights[k] / total;
            assert(share == crate::dashboard::share(available@, rem, k as int));
            assert(limit + 1 <= 11 * n * (limit + 1)) by (nonlinear_arith)
                requires
                    n > 0,
                    limit >= 0,
            ;
            assert(share + 1 <= limit);
            let bonus: usize = if count_ahead(available, &rests, k, Ghost(key)) < extra {
                1
            } else {
                0
            };
            targets.push(1 + share + bonus);
        }
        k = k + 1;
    }
    targets
}

proof fn lemma_weight_sum_mono(available: Seq<usize>, i: int, j: int)
    requires
        i <= j,
    ensures
        weight_sum(available, i) <= weight_sum(available, j),
    decreases j - i,
{
    if i < j {
        lemma_weight_sum_mono(available, i, j - 1);
    }
}

proof fn lemma_active_exists(available: Seq<usize>, n: int)
    requires
        0 <= n <= available.len(),
        active_to(available, n) > 0,
    ensures
        exists|k: int| 0 <= k < n && #[trigger] available[k] > 0,
    decreases n,
{
    if n > 0 && available[n - 1] == 0 {
        lemma_active_exists(available, n - 1);
    }
}

proof fn lemma_no_shares(available: Seq<usize>, remaining: int, n: int)
    requires
        0 <= n <= available.len(),
        active_to(available, n) == 0,
    ensures
        share_sum(available, remaining, n) == 0,
    decreases n,
{
    if n > 0 {
        lemma_no_shares(available, remaining, n - 1);
    }
}

/// For how many of the first `n` matches the feed still lacks papers.
pub open spec fn coverage(
    matches: Seq<KeywordMatch>,
    represented: Seq<usize>,
    targets: Seq<usize>,
    n: int,
) -> nat
    decreases n,
{
    if n <= 0 {
        0
    } else {
        let k = matches[n - 1].keyword_index as int;
        coverage(matches, represented, targets, n - 1) + if represented[k] < targets[k] {
            1nat
        } else {
            0nat
        }
    }
}

/// How much the feed lacks papers of the first `n` matches, by weight.
pub open spec fn weighted_coverage(
    matches: Seq<KeywordMatch>,
    represented: Seq<usize>,
    targets: Seq<usize>,
    weights: Seq<usize>,
    n: int,
) -> nat
    decreases n,
{
    if n <= 0 {
        0
    } else {
        let k = matches[n - 1].keyword_index as int;
        weighted_coverage(matches, represented, targets, weights, n - 1) + if represented[k]
            < targets[k] {
            ((targets[k] - represented[k]) * weights[k]) as nat
        } else {
            0nat
        }
    }
}

/// How many of the first `n` matches are of a whole keyword in the title.
pub open spec fn full_matches(matches: Seq<KeywordMatch>, n: int) -> nat
    decreases n,
{
    if n <= 0 {
        0
    } else {
        full_matches(matches, n - 1) + if matches[n - 1].full_title_match {
            1nat
        } else {
            0nat
        }
    }
}

/// How many terms the title holds for the first `n` matches.
pub open spec fn term_matches(matches: Seq<KeywordMatch>, n: int) -> nat
    decreases n,
{
    if n <= 0 {
        0
    } else {
        term_matches(matches, n - 1) + matches[n - 1].title_term_matches as nat
    }
}

/// What is compared of two candidates, the most important first.
pub struct ScoreView {
    pub coverage: nat,
    pub matches: nat,
    pub weighted: nat,
    pub daily_rank: Seq<u8>,
    pub full: nat,
    pub terms: nat,
    pub id: Seq<char>,
}

/// The score of a candidate while the feed has `represented` papers of each
/// keyword.
pub open spec fn score(
    c: CandidateView,
    represented: Seq<usize>,
    targets: Seq<usize>,
    weights: Seq<usize>,
) -> ScoreView {
    let n = c.matches.len() as int;
    ScoreView {
        coverage: coverage(c.matches, represented, targets, n),
        matches: c.matches.len(),
        weighted: weighted_coverage(c.matches, represented, targets, weights, n),
        daily_rank: c.daily_rank,
        full: full_matches(c.matches, n),
        terms: term_matches(c.matches, n),
        id: c.paper.id,
    }
}

/// Whether a score is at most another one.
pub open spec fn score_le(a: ScoreView, b: ScoreView) -> bool {
    if a.coverage != b.coverage {
        a.coverage < b.coverage
    } else if a.matches != b.matches {
        a.matches < b.matches
    } else if a.weighted != b.weighted {
        a.weighted < b.weighted
    } else if a.daily_rank != b.daily_rank {
        bytes_le(a.daily_rank, b.daily_rank)
    } else if a.full != b.full {
        a.full < b.full
    } else if a.terms != b.terms {
        a.terms < b.terms
    } else {
        lex_le(a.id, b.id)
    }
}

struct Score {
    coverage: usize,
    matches: usize,
    weighted: u128,
    full: usize,
    terms: u128,
}

fn score_of(
    c: &DashboardCandidate,
    represented: &Vec<usize>,
    targets: &Vec<usize>,
    weights: &Vec<usize>,
    limit: usize,
) -> (r: Score)
    requires
        represented@.len() == targets@.len() == weights@.len(),
        forall|i: int|
            0 <= i < c.matches@.len() ==> (#[trigger] c.matches@[i]).keyword_index
                < targets@.len(),
        forall|k: int| 0 <= k < targets@.len() ==> #[trigger] targets@[k] <= limit + 1,
        forall|k: int| 0 <= k < weights@.len() ==> #[trigger] weights@[k] <= 11 * targets@.len(),
        11 * targets@.len() * (limit + 1) <= usize::MAX,
    ensures
        ({
            let s = score(c@, represented@, targets@, weights@);
            r.coverage == s.coverage && r.matches == s.matches && r.weighted == s.weighted
                && r.full == s.full && r.terms == s.terms
        }),
{
    let n: usize = c.matches.len();
    let mut r = Score { coverage: 0, matches: n, weighted: 0, full: 0, terms: 0 };
    let mut i: usize = 0;
    while i < n
        invariant
            i <= n == c.matches@.len(),
            represented@.len() == targets@.len() == weights@.len(),
            forall|i: int|
                0 <= i < c.matches@.len() ==> (#[trigger] c.matches@[i]).keyword_index
                    < targets@.len(),
            forall|k: int| 0 <= k < targets@.len() ==> #[trigger] targets@[k] <= limit + 1,
            forall|k: int|
                0 <= k < weights@.len() ==> #[trigger] weights@[k] <= 11 * targets@.len(),
            11 * targets@.len() * (limit + 1) <= usize::MAX,
            r.coverage == coverage(c.matches@, represented@, targets@, i as int),
            r.coverage <= i,
            r.matches == n,
            r.weighted == weighted_coverage(
                c.matches@,
                represented@,
                targets@,
                weights@,
                i as int,
            ),
            r.weighted <= i * usize::MAX,
            r.full == full_matches(c.matches@, i as int),
            r.full <= i,
            r.terms == term_matches(c.matches@, i as int),
            r.terms <= i * usize::MAX,
        decreases n - i,
    {
        let m: KeywordMatch = c.matches[i];
        let k: usize = m.keyword_index;
        assert(c.matches@[i as int].keyword_index < targets@.len());
        assert((i + 1) * usize::MAX == i * usize::MAX + usize::MAX) by (nonlinear_arith);
        assert((i + 1) * usize::MAX <= u128::MAX) by (nonlinear_arith)
            requires
                i + 1 <= usize::MAX,
        ;
        if represented[k] < targets[k] {
            let deficit: usize = targets[k] - represented[k];
            proof {
                let d = deficit as int;
                let w = weights@[k as int] as int;
                let t = targets@.len() as int;
                assert(0 <= d * w <= 11 * t * (limit + 1)) by (nonlinear_arith)
                    requires
                        0 <= d <= limit + 1,
                        0 <= w <= 11 * t,
                ;
            }
            r.coverage = r.coverage + 1;
            r.weighted = r.weighted + (deficit * weights[k]) as u128;
        }
        if m.full_title_match {
            r.full = r.full + 1;
        }
        r.terms = r.terms + m.title_term_matches as u128;
        i = i + 1;
    }
    r
}

fn at_most(
    a: &DashboardCandidate,
    b: &DashboardCandidate,
    represented: &Vec<usize>,
    targets: &Vec<usize>,
    weights: &Vec<usize>,
    limit: usize,
) -> (r: bool)
    requires
        represented@.len() == targets@.len() == weights@.len(),
        forall|i: int|
            0 <= i < a.matches@.len() ==> (#[trigger] a.matches@[i]).keyword_index
                < targets@.len(),
        forall|i: int|
            0 <= i < b.matches@.len() ==> (#[trigger] b.matches@[i]).keyword_index
                < targets@.len(),
        forall|k: int| 0 <= k < targets@.len() ==> #[trigger] targets@[k] <= limit + 1,
        forall|k: int| 0 <= k < weights@.len() ==> #[trigger] weights@[k] <= 11 * targets@.len(),
        11 * targets@.len() * (limit + 1) <= usize::MAX,
    ensures
        r == score_le(
            score(a@, represented@, targets@, weights@),
            score(b@, represented@, targets@, weights@),
        ),
{
    let x = score_of(a, represented, targets, weights, limit);
    let y = score_of(b, represented, targets, weights, limit);
    if x.coverage != y.coverage {
        return x.coverage < y.coverage;
    }
    if x.matches != y.matches {
        return x.matches < y.matches;
    }
    if x.weighted != y.weighted {
        return x.weighted < y.weighted;
    }
    let le: bool = bytes_at_most(&a.daily_rank, &b.daily_rank);
    let ge: bool = bytes_at_most(&b.daily_rank, &a.daily_rank);
    proof {
        lemma_bytes_total(a.daily_rank@, b.daily_rank@);
    }
    if !(le && ge) {
        return le;
    }
    if x.full != y.full {
        return x.full < y.full;
    }
    if x.terms != y.terms {
        return x.terms < y.terms;
    }
    let p = to_chars(a.paper.id.as_str());
    let q = to_chars(b.paper.id.as_str());
    text_le(&p, &q)
}

/// Position of the best of the first `n` candidates.
pub open spec fn best_of(
    cands: Seq<CandidateView>,
    represented: Seq<usize>,
    targets: Seq<usize>,
    weights: Seq<usize>,
    n: int,
) -> int
    decreases n,
{
    if n <= 1 {
        0
    } else {
        let b = best_of(cands, represented, targets, weights, n - 1);
        if score_le(
            score(cands[b], represented, targets, weights),
            score(cands[n - 1], represented, targets, weights),
        ) {
            n - 1
        } else {
            b
        }
    }
}

/// The number of papers of each keyword once the first `n` matches count.
pub open spec fn counted(represented: Seq<usize>, matches: Seq<KeywordMatch>, n: int) -> Seq<usize>
    decreases n,
{
    if n <= 0 {
        represented
    } else {
        let before = counted(represented, matches, n - 1);
        let k = matches[n - 1].keyword_index as int;
        before.update(k, (before[k] + 1) as usize)
    }
}

/// A list whose element `i` has been replaced by its last one.
pub open spec fn swap_removed(cands: Seq<CandidateView>, i: int) -> Seq<CandidateView> {
    if i == cands.len() - 1 {
        cands.drop_last()
    } else {
        cands.update(i, cands.last()).drop_last()
    }
}

/// The papers of the feed: the best candidate, and so on without it, each paper
/// counting for all keywords that found it.
pub open spec fn chosen(
    cands: Seq<CandidateView>,
    represented: Seq<usize>,
    targets: Seq<usize>,
    weights: Seq<usize>,
    limit: nat,
) -> Seq<RemotePaperView>
    decreases limit,
{
    if limit == 0 || cands.len() == 0 {
        Seq::empty()
    } else {
        let b = best_of(cands, represented, targets, weights, cands.len() as int);
        let c = cands[b];
        seq![c.paper] + chosen(
            swap_removed(cands, b),
            counted(represented, c.matches, c.matches.len() as int),
            targets,
            weights,
            (limit - 1) as nat,
        )
    }
}

/// The weights as a list.
pub open spec fn weights_of(available: Seq<usize>) -> Seq<usize> {
    Seq::new(available.len(), |k: int| priority_weight(available, k) as usize)
}

/// The targets as a list.
pub open spec fn targets_of(available: Seq<usize>, draws: Seq<u64>, limit: int) -> Seq<usize> {
    Seq::new(available.len(), |k: int| target(available, draws, limit, k) as usize)
}

/// The daily feed.
pub open spec fn feed(buckets: Seq<Bucket>, limit: nat, date: Seq<char>, draws: Seq<u64>) -> Seq<
    RemotePaperView,
> {
    let cands = collected(buckets, buckets.len() as int, date);
    let available = availability(cands, buckets.len());
    chosen(
        cands,
        Seq::new(buckets.len(), |k: int| 0usize),
        targets_of(available, draws, limit as int),
        weights_of(available),
        limit,
    )
}

fn remove_swapping(cands: &mut Vec<DashboardCandidate>, i: usize) -> (r: DashboardCandidate)
    requires
        i < old(cands)@.len(),
    ensures
        r@ == candidates_view(old(cands)@)[i as int],
        candidates_view(final(cands)@) == swap_removed(candidates_view(old(cands)@), i as int),
{
    let ghost before = candidates_view(cands@);
    let r = cands.swap_remove(i);
    assert(candidates_view(cands@) =~= swap_removed(before, i as int));
    r
}

proof fn lemma_counted(represented: Seq<usize>, matches: Seq<KeywordMatch>, n: int, top: int)
    requires
        0 <= n <= matches.len(),
        forall|i: int|
            0 <= i < matches.len() ==> (#[trigger] matches[i]).keyword_index < represented.len(),
        forall|i: int, j: int|
            0 <= i < j < matches.len() ==> (#[trigger] matches[i]).keyword_index != (
            #[trigger] matches[j]).keyword_index,
        forall|k: int| 0 <= k < represented.len() ==> #[trigger] represented[k] <= top,
        top < usize::MAX,
    ensures
        counted(represented, matches, n).len() == represented.len(),
        forall|k: int|
            0 <= k < represented.len() ==> #[trigger] counted(represented, matches, n)[k] <= top + 1,
        forall|i: int|
            n <= i < matches.len() ==> counted(
                represented,
                matches,
                n,
            )[(#[trigger] matches[i]).keyword_index as int] <= top,
    decreases n,
{
    if n > 0 {
        lemma_counted(represented, matches, n - 1, top);
        let before = counted(represented, matches, n - 1);
        let k = matches[n - 1].keyword_index as int;
        assert(before[k] <= top);
        assert forall|i: int| n <= i < matches.len() implies counted(
            represented,
            matches,
            n,
        )[(#[trigger] matches[i]).keyword_index as int] <= top by {
            assert(matches[n - 1].keyword_index != matches[i].keyword_index);
        }
    }
}

/// Chooses the daily feed. Every keyword should have its number of papers; papers
/// that several keywords found count for each of them and come first; the rest is
/// decided by the day.
pub fn select_dashboard_papers(
    buckets: &Vec<Bucket>,
    limit: usize,
    feed_date: &str,
    draws: &Vec<u64>,
) -> (r: Vec<RemotePaper>)
    requires
        draws@.len() == buckets@.len(),
        feed_fits(buckets@.len() as int, limit as int),
    ensures
        papers_view(r@) == feed(buckets@, limit as nat, feed_date@, draws@),
{
    let n: usize = buckets.len();
    let mut cands = collect(buckets, feed_date);
    let available = available_by_keyword(&cands, n);
    let targets = keyword_representation_targets(&available, draws, limit);
    let weights = keyword_priority_weights(&available);
    assert(targets@ =~= targets_of(available@, draws@, limit as int));
    assert(weights@ =~= weights_of(available@));
    let mut represented: Vec<usize> = Vec::new();
    let mut i: usize = 0;
    while i < n
        invariant
            i <= n,
            represented@.len() == i,
            forall|k: int| 0 <= k < i ==> represented@[k] == 0,
        decreases n - i,
    {
        represented.push(0);
        i = i + 1;
    }
    assert(represented@ =~= Seq::new(n as nat, |k: int| 0usize));
    let mut selected: Vec<RemotePaper> = Vec::new();
    let ghost all = chosen(
        candidates_view(cands@),
        represented@,
        targets@,
        weights@,
        limit as nat,
    );
    assert(papers_view(selected@) + all =~= all);
    while selected.len() < limit && cands.len() > 0
        invariant
            selected@.len() <= limit,
            n == targets@.len() == weights@.len() == represented@.len(),
            matches_ok(candidates_view(cands@), n as int),
            forall|k: int| 0 <= k < targets@.len() ==> #[trigger] targets@[k] <= limit + 1,
            forall|k: int| 0 <= k < weights@.len() ==> #[trigger] weights@[k] <= 11 * n,
            11 * n * (limit + 1) <= usize::MAX,
            forall|k: int| 0 <= k < n ==> #[trigger] represented@[k] <= selected@.len(),
            papers_view(selected@) + chosen(
                candidates_view(cands@),
                represented@,
                targets@,
                weights@,
                (limit - selected@.len()) as nat,
            ) == all,
        decreases limit - selected@.len(),
    {
        let ghost views = candidates_view(cands@);
        let mut best: usize = 0;
        let mut j: usize = 1;
        while j < cands.len()
            invariant
                1 <= j <= cands@.len(),
                best < j,
                views == candidates_view(cands@),
                n == targets@.len() == weights@.len() == represented@.len(),
                matches_ok(views, n as int),
                forall|k: int| 0 <= k < targets@.len() ==> #[trigger] targets@[k] <= limit + 1,
                forall|k: int| 0 <= k < weights@.len() ==> #[trigger] weights@[k] <= 11 * n,
                11 * n * (limit + 1) <= usize::MAX,
                best == best_of(views, represented@, targets@, weights@, j as int),
            decreases cands@.len() - j,
        {
            assert(views[best as int].matches == cands@[best as int].matches@);
            assert(views[j as int].matches == cands@[j as int].matches@);
            if at_most(&cands[best], &cands[j], &represented, &targets, &weights, limit) {
                best = j;
            }
            j = j + 1;
        }
        let ghost old_represented = represented@;
        let candidate = remove_swapping(&mut cands, best);
        let ghost c = views[best as int];
        let ghost count = selected@.len() as int;
        proof {
            let now = candidates_view(cands@);
            assert forall|x: int| #![trigger now[x]] 0 <= x < now.len() implies {
                &&& forall|i: int|
                    0 <= i < now[x].matches.len() ==> (#[trigger] now[x].matches[i]).keyword_index
                        < n
                &&& forall|i: int, j: int|
                    0 <= i < j < now[x].matches.len() ==> (
                    #[trigger] now[x].matches[i]).keyword_index != (
                    #[trigger] now[x].matches[j]).keyword_index
            } by {
                if x == best {
                    assert(now[x] == views[views.len() - 1]);
                } else {
                    assert(now[x] == views[x]);
                }
            }
        }
        let mut m: usize = 0;
        while m < candidate.matches.len()
            invariant
                m <= candidate.matches@.len(),
                candidate.matches@ == c.matches,
                n == old_represented.len() == represented@.len(),
                count < limit,
                forall|i: int|
                    0 <= i < c.matches.len() ==> (#[trigger] c.matches[i]).keyword_index < n,
                forall|i: int, j: int|
                    0 <= i < j < c.matches.len() ==> (#[trigger] c.matches[i]).keyword_index != (
                    #[trigger] c.matches[j]).keyword_index,
                forall|k: int| 0 <= k < n ==> #[trigger] old_represented[k] <= count,
                represented@ == counted(old_represented, c.matches, m as int),
            decreases candidate.matches@.len() - m,
        {
            let k: usize = candidate.matches[m].keyword_index;
            proof {
                lemma_counted(old_represented, c.matches, m as int, count);
                assert(c.matches[m as int].keyword_index == k);
            }
            let now: usize = represented[k] + 1;
            represented.set(k, now);
            m = m + 1;
        }
        proof {
            lemma_counted(old_represented, c.matches, c.matches.len() as int, count);
        }
        let ghost before = papers_view(selected@);
        selected.push(candidate.paper);
        proof {
            assert(papers_view(selected@) =~= before.push(c.paper));
            let rest = chosen(
                candidates_view(cands@),
                represented@,
                targets@,
                weights@,
                (limit - selected@.len()) as nat,
            );
            assert(before + (seq![c.paper] + rest) =~= before.push(c.paper) + rest);
        }
    }
    proof {
        let rest = chosen(
            candidates_view(cands@),
            represented@,
            targets@,
            weights@,
            (limit - selected@.len()) as nat,
        );
        assert(rest =~= Seq::empty());
        assert(papers_view(selected@) + rest =~= papers_view(selected@));
    }
    selected
}

pub(crate) proof fn lemma_score_total(a: ScoreView, b: ScoreView)
    ensures
        score_le(a, b) || score_le(b, a),
        score_le(a, b) && score_le(b, a) ==> a.id == b.id,
{
    lemma_bytes_total(a.daily_rank, b.daily_rank);
    crate::strings::lemma_lex_total(a.id, b.id);
    if lex_le(a.id, b.id) && lex_le(b.id, a.id) {
        crate::strings::lemma_lex_antisymmetric(a.id, b.id);
    }
}

proof fn lemma_score_transitive(a: ScoreView, b: ScoreView, c: ScoreView)
    requires
        score_le(a, b),
        score_le(b, c),
    ensures
        score_le(a, c),
{
    lemma_bytes_total(a.daily_rank, b.daily_rank);
    lemma_bytes_total(b.daily_rank, c.daily_rank);
    lemma_bytes_total(a.daily_rank, c.daily_rank);
    if bytes_le(a.daily_rank, b.daily_rank) && bytes_le(b.daily_rank, c.daily_rank) {
        lemma_bytes_transitive(a.daily_rank, b.daily_rank, c.daily_rank);
    }
    if lex_le(a.id, b.id) && lex_le(b.id, c.id) {
        crate::strings::lemma_lex_transitive(a.id, b.id, c.id);
    }
}

/// The paper that comes next scores at least as high as every other one: so a
/// paper that more of the lacking keywords have found comes before the others.
pub proof fn lemma_best_is_best(
    cands: Seq<CandidateView>,
    represented: Seq<usize>,
    targets: Seq<usize>,
    weights: Seq<usize>,
    n: int,
)
    requires
        0 < n <= cands.len(),
    ensures
        0 <= best_of(cands, represented, targets, weights, n) < n,
        forall|i: int|
            0 <= i < n ==> score_le(
                #[trigger] score(cands[i], represented, targets, weights),
                score(
                    cands[best_of(cands, represented, targets, weights, n)],
                    represented,
                    targets,
                    weights,
                ),
            ),
    decreases n,
{
    let s = |i: int| score(cands[i], represented, targets, weights);
    lemma_score_total(s(0), s(0));
    if n > 1 {
        lemma_best_is_best(cands, represented, targets, weights, n - 1);
        let p = best_of(cands, represented, targets, weights, n - 1);
        let b = best_of(cands, represented, targets, weights, n);
        lemma_score_total(s(p), s(n - 1));
        lemma_score_total(s(n - 1), s(n - 1));
        assert forall|i: int| 0 <= i < n implies score_le(
            #[trigger] score(cands[i], represented, targets, weights),
            score(cands[b], represented, targets, weights),
        ) by {
            if i < n - 1 && b == n - 1 {
                lemma_score_transitive(s(i), s(p), s(b));
            }
        }
    }
}

/// The feed holds as many papers as there are candidates, up to the limit.
pub proof fn lemma_feed_length(
    cands: Seq<CandidateView>,
    represented: Seq<usize>,
    targets: Seq<usize>,
    weights: Seq<usize>,
    limit: nat,
)
    ensures
        chosen(cands, represented, targets, weights, limit).len() == crate::text::min(
            limit as int,
            cands.len() as int,
        ),
    decreases limit,
{
    if limit > 0 && cands.len() > 0 {
        let b = best_of(cands, represented, targets, weights, cands.len() as int);
        lemma_best_is_best(cands, represented, targets, weights, cands.len() as int);
        lemma_feed_length(
            swap_removed(cands, b),
            counted(represented, cands[b].matches, cands[b].matches.len() as int),
            targets,
            weights,
            (limit - 1) as nat,
        );
    }
}

/// Whether no two candidates have the same identifier.
pub open spec fn distinct_ids(cands: Seq<CandidateView>) -> bool {
    forall|i: int, j: int|
        0 <= i < j < cands.len() ==> (#[trigger] cands[i]).paper.id != (
        #[trigger] cands[j]).paper.id
}

/// Whether a paper is among those that some keyword found.
pub open spec fn in_some_bucket(buckets: Seq<Bucket>, paper: RemotePaperView) -> bool {
    exists|b: int, k: int|
        0 <= b < buckets.len() && 0 <= k < buckets[b].papers@.len() && #[trigger] papers_view(
            buckets[b].papers@,
        )[k] == paper
}

/// Whether every candidate is among the papers that some keyword found.
pub open spec fn from_buckets(cands: Seq<CandidateView>, buckets: Seq<Bucket>) -> bool {
    forall|c: int| 0 <= c < cands.len() ==> in_some_bucket(buckets, (#[trigger] cands[c]).paper)
}

pub(crate) proof fn lemma_candidate_place(cands: Seq<CandidateView>, id: Seq<char>, i: int)
    requires
        0 <= i,
    ensures
        match candidate_place(cands, id, i) {
            Some(k) => i <= k < cands.len() && cands[k].paper.id == id,
            None => forall|k: int| i <= k < cands.len() ==> (#[trigger] cands[k]).paper.id != id,
        },
    decreases cands.len() - i,
{
    if i < cands.len() && cands[i].paper.id != id {
        lemma_candidate_place(cands, id, i + 1);
    }
}

proof fn lemma_with_papers(
    cands: Seq<CandidateView>,
    buckets: Seq<Bucket>,
    b: int,
    n: int,
    date: Seq<char>,
)
    requires
        0 <= b < buckets.len(),
        n <= buckets[b].papers@.len(),
        distinct_ids(cands),
        from_buckets(cands, buckets),
    ensures
        ({
            let papers = papers_view(buckets[b].papers@);
            let more = with_papers(cands, papers, n, b as usize, buckets[b].keyword@, date);
            distinct_ids(more) && from_buckets(more, buckets)
        }),
    decreases n,
{
    if n > 0 {
        lemma_with_papers(cands, buckets, b, n - 1, date);
        let papers = papers_view(buckets[b].papers@);
        let before = with_papers(cands, papers, n - 1, b as usize, buckets[b].keyword@, date);
        let more = with_papers(cands, papers, n, b as usize, buckets[b].keyword@, date);
        lemma_candidate_place(before, papers[n - 1].id, 0);
        assert forall|c: int| 0 <= c < more.len() implies in_some_bucket(
            buckets,
            (#[trigger] more[c]).paper,
        ) by {
            if c < before.len() {
                assert(more[c].paper == before[c].paper);
            } else {
                assert(more[c].paper == papers[n - 1]);
            }
        }
    }
}

pub(crate) proof fn lemma_collected(buckets: Seq<Bucket>, n: int, date: Seq<char>)
    requires
        n <= buckets.len(),
    ensures
        distinct_ids(collected(buckets, n, date)),
        from_buckets(collected(buckets, n, date), buckets),
    decreases n,
{
    if n > 0 {
        lemma_collected(buckets, n - 1, date);
        lemma_with_papers(
            collected(buckets, n - 1, date),
            buckets,
            n - 1,
            buckets[n - 1].papers@.len() as int,
            date,
        );
    }
}

pub(crate) proof fn lemma_chosen(
    cands: Seq<CandidateView>,
    represented: Seq<usize>,
    targets: Seq<usize>,
    weights: Seq<usize>,
    limit: nat,
)
    requires
        distinct_ids(cands),
    ensures
        ({
            let papers = chosen(cands, represented, targets, weights, limit);
            &&& forall|i: int|
                0 <= i < papers.len() ==> exists|c: int|
                    0 <= c < cands.len() && (#[trigger] cands[c]).paper == #[trigger] papers[i]
            &&& forall|i: int, j: int|
                0 <= i < j < papers.len() ==> (#[trigger] papers[i]).id != (#[trigger] papers[j]).id
        }),
    decreases limit,
{
    if limit > 0 && cands.len() > 0 {
        let b = best_of(cands, represented, targets, weights, cands.len() as int);
        lemma_best_is_best(cands, represented, targets, weights, cands.len() as int);
        let rest = swap_removed(cands, b);
        let next = counted(represented, cands[b].matches, cands[b].matches.len() as int);
        let last = cands.len() - 1;
        assert forall|c: int| 0 <= c < rest.len() implies #[trigger] rest[c] == cands[if c == b {
            last
        } else {
            c
        }] by {}
        assert(distinct_ids(rest));
        lemma_chosen(rest, next, targets, weights, (limit - 1) as nat);
        let papers = chosen(cands, represented, targets, weights, limit);
        let behind = chosen(rest, next, targets, weights, (limit - 1) as nat);
        assert(papers == seq![cands[b].paper] + behind);
        assert forall|i: int| 0 <= i < papers.len() implies exists|c: int|
            0 <= c < cands.len() && (#[trigger] cands[c]).paper == #[trigger] papers[i] && (i == 0
                || c != b) by {
            if i == 0 {
                assert(cands[b].paper == papers[0]);
            } else {
                assert(papers[i] == behind[i - 1]);
                let d = choose|d: int|
                    0 <= d < rest.len() && (#[trigger] rest[d]).paper == behind[i - 1];
                let c = if d == b {
                    last
                } else {
                    d
                };
                assert(cands[c].paper == papers[i]);
            }
        }
        assert forall|i: int, j: int| 0 <= i < j < papers.len() implies (#[trigger] papers[i]).id
            != (#[trigger] papers[j]).id by {
            assert(papers[j] == behind[j - 1]);
            if i > 0 {
                assert(papers[i] == behind[i - 1]);
            } else {
                let c = choose|c: int|
                    0 <= c < cands.len() && (#[trigger] cands[c]).paper == papers[j] && c != b;
                assert(cands[b].paper == papers[0]);
                assert(cands[c].paper.id != cands[b].paper.id);
            }
        }
    }
}

/// The daily feed holds papers that some keyword found, and none of them twice.
pub proof fn lemma_feed_papers(buckets: Seq<Bucket>, limit: nat, date: Seq<char>, draws: Seq<u64>)
    ensures
        ({
            let papers = feed(buckets, limit, date, draws);
            &&& forall|i: int|
                0 <= i < papers.len() ==> in_some_bucket(buckets, #[trigger] papers[i])
            &&& forall|i: int, j: int|
                0 <= i < j < papers.len() ==> (#[trigger] papers[i]).id != (#[trigger] papers[j]).id
        }),
{
    let cands = collected(buckets, buckets.len() as int, date);
    let available = availability(cands, buckets.len());
    lemma_collected(buckets, buckets.len() as int, date);
    lemma_chosen(
        cands,
        Seq::new(buckets.len(), |k: int| 0usize),
        targets_of(available, draws, limit as int),
        weights_of(available),
        limit,
    );
    let papers = feed(buckets, limit, date, draws);
    assert forall|i: int| 0 <= i < papers.len() implies in_some_bucket(
        buckets,
        #[trigger] papers[i],
    ) by {
        let c = choose|c: int| 0 <= c < cands.len() && (#[trigger] cands[c]).paper == papers[i];
        assert(in_some_bucket(buckets, cands[c].paper));
    }
}

/// A feed that was asked for: of which day, and of which keywords.
#[derive(Debug)]
pub struct DashboardFeedKey {
    pub feed_date: String,
    pub keyword_signature: String,
}

/// Whether two requests are for the same feed.
pub fn same_feed(a: &DashboardFeedKey, b: &DashboardFeedKey) -> (r: bool)
    ensures
        r == (a.feed_date@ == b.feed_date@ && a.keyword_signature@ == b.keyword_signature@),
{
    same_text(a.feed_date.as_str(), b.feed_date.as_str()) && same_text(
        a.keyword_signature.as_str(),
        b.keyword_signature.as_str(),
    )
}

/// Shows the papers of a feed.
pub fn show_feed(today: &mut TodayState, papers: Vec<RemotePaper>)
    ensures
        *final(today) == (TodayState {
            papers,
            selected: crate::downloads::clamped(old(today).selected, papers@.len()),
            status: DiscoveryStatus::Ready,
        }),
{
    today.selected = crate::downloads::clamp_selected(today.selected, papers.len());
    today.papers = papers;
    today.status = DiscoveryStatus::Ready;
}

/// Takes in the answer to a request for a feed, unless another feed is wanted by
/// now. Tells whether it was the wanted one.
pub fn apply_today_response(
    today: &mut TodayState,
    wanted: &DashboardFeedKey,
    key: &DashboardFeedKey,
    result: Result<Vec<RemotePaper>, String>,
) -> (accepted: bool)
    ensures
        accepted == (wanted.feed_date@ == key.feed_date@ && wanted.keyword_signature@
            == key.keyword_signature@),
        if !accepted {
            *final(today) == *old(today)
        } else {
            match result {
                Ok(papers) => *final(today) == (TodayState {
                    papers,
                    selected: crate::downloads::clamped(old(today).selected, papers@.len()),
                    status: DiscoveryStatus::Ready,
                }),
                Err(error) => *final(today) == (TodayState {
                    status: DiscoveryStatus::Error(error),
                    ..*old(today)
                }),
            }
        },
{
    if !same_feed(wanted, key) {
        return false;
    }
    match result {
        Ok(papers) => show_feed(today, papers),
        Err(error) => today.status = DiscoveryStatus::Error(error),
    }
    true
}

/// What becomes of the feed when the day or the keywords have changed: a stored
/// feed is shown at once. Tells whether the feed has to be fetched, which is so
/// unless it is stored or being fetched.
pub fn refresh_dashboard_papers(
    today: &mut TodayState,
    stored: Option<Vec<RemotePaper>>,
    wanted: &DashboardFeedKey,
    fetching: &Option<DashboardFeedKey>,
) -> (fetch: bool)
    ensures
        match stored {
            Some(papers) => !fetch && *final(today) == (TodayState {
                papers,
                selected: crate::downloads::clamped(old(today).selected, papers@.len()),
                status: DiscoveryStatus::Ready,
            }),
            None => {
                &&& *final(today) == (TodayState { status: DiscoveryStatus::Loading, ..*old(today) })
                &&& fetch == !(*fetching matches Some(k) && k.feed_date@ == wanted.feed_date@
                    && k.keyword_signature@ == wanted.keyword_signature@)
            },
        },
{
    match stored {
        Some(papers) => {
            show_feed(today, papers);
            false
        },
        None => {
            today.status = DiscoveryStatus::Loading;
            match fetching {
                Some(key) => !same_feed(key, wanted),
                None => true,
            }
        },
    }
}

/// What the feed is made of once all keywords have been asked: the keywords that
/// have answered, in their order. Where none has, the last error is reported.
pub fn gather_buckets(answers: Vec<Option<Bucket>>, last_error: Option<String>) -> (r: Result<
    Vec<Bucket>,
    String,
>)
    ensures
        ({
            let answered = answers@.filter(|a: Option<Bucket>| a is Some);
            match r {
                Ok(buckets) => (answered.len() > 0 || last_error is None) && buckets@.len()
                    == answered.len() && forall|i: int|
                    0 <= i < buckets@.len() ==> answered[i] == Some(#[trigger] buckets@[i]),
                Err(e) => answered.len() == 0 && last_error == Some(e),
            }
        }),
{
    let ghost all = answers@;
    let ghost keep = |a: Option<Bucket>| a is Some;
    let mut rest = answers;
    let mut buckets: Vec<Bucket> = Vec::new();
    let ghost mut n: int = 0;
    proof {
        reveal(Seq::filter);
        assert(all.take(0).filter(keep) =~= Seq::empty());
        assert(all.skip(0) =~= rest@);
    }
    while rest.len() > 0
        invariant
            0 <= n <= all.len(),
            rest@ == all.skip(n),
            keep == (|a: Option<Bucket>| a is Some),
            buckets@.len() == all.take(n).filter(keep).len(),
            forall|i: int|
                0 <= i < buckets@.len() ==> all.take(n).filter(keep)[i] == Some(
                    #[trigger] buckets@[i],
                ),
        decreases rest@.len(),
    {
        proof {
            reveal(Seq::filter);
            assert(all.take(n + 1).drop_last() =~= all.take(n));
            assert(rest@.remove(0) =~= all.skip(n + 1));
        }
        let a = rest.remove(0);
        match a {
            Some(bucket) => buckets.push(bucket),
            None => {},
        }
        proof {
            n = n + 1;
        }
    }
    assert(all.take(n) =~= all);
    if buckets.len() == 0 {
        match last_error {
            Some(e) => return Err(e),
            None => {},
        }
    }
    Ok(buckets)
}

/// The feed without keywords: the latest papers in the order of the day, up to
/// the limit.
pub fn latest_feed(papers: Vec<RemotePaper>, feed_date: &str) -> (r: Vec<RemotePaper>)
    ensures
        exists|order: Seq<usize>| #[trigger]
            day_order(papers_view(papers@), feed_date@, ""@, order) && papers_view(r@) == Seq::new(
                order.len(),
                |i: int| papers_view(papers@)[order[i] as int],
            ).take(
                crate::text::min(papers@.len() as int, DASHBOARD_DISPLAY_LIMIT as int),
            ),
{
    let ghost all = papers_view(papers@);
    let mut r = papers;
    shuffle_daily_bucket(&mut r, feed_date, "");
    let ghost order = choose|order: Seq<usize>| #[trigger]
        day_order(all, feed_date@, ""@, order) && papers_view(r@) == Seq::new(
            order.len(),
            |i: int| all[order[i] as int],
        );
    let ghost sorted = papers_view(r@);
    assert(sorted.len() == r@.len());
    if r.len() > DASHBOARD_DISPLAY_LIMIT {
        r.truncate(DASHBOARD_DISPLAY_LIMIT);
    }
    assert(papers_view(r@) =~= sorted.take(
        crate::text::min(all.len() as int, DASHBOARD_DISPLAY_LIMIT as int),
    ));
    assert(day_order(all, feed_date@, ""@, order));
    r
}

/// Whether keyword `a` comes before keyword `b` by `key`.
spec fn key_before(key: spec_fn(int) -> int, a: int, b: int) -> bool {
    key(a) > key(b) || (key(a) == key(b) && a < b)
}

proof fn lemma_ahead_grows(available: Seq<usize>, key: spec_fn(int) -> int, a: int, b: int, m: int)
    requires
        0 <= a,
        a < m ==> available[a] > 0,
        key_before(key, a, b),
    ensures
        ahead(available, key, a, m) + (if a < m {
            1nat
        } else {
            0nat
        }) <= ahead(available, key, b, m),
    decreases m,
{
    if m > 0 {
        lemma_ahead_grows(available, key, a, b, m - 1);
    }
}

/// How many of the first `m` keywords with papers have fewer than `e` of the first
/// `n` before them.
spec fn below_rank(available: Seq<usize>, key: spec_fn(int) -> int, e: int, n: int, m: int) -> nat
    decreases m,
{
    if m <= 0 {
        0
    } else {
        below_rank(available, key, e, n, m - 1) + if available[m - 1] > 0 && ahead(
            available,
            key,
            m - 1,
            n,
        ) < e {
            1nat
        } else {
            0nat
        }
    }
}

proof fn lemma_below_step(
    available: Seq<usize>,
    key: spec_fn(int) -> int,
    e: int,
    d: int,
    n: int,
    m: int,
)
    requires
        0 <= m < n <= available.len(),
        d == if available[n - 1] > 0 && ahead(available, key, n - 1, n - 1) < e {
            e - 1
        } else {
            e
        },
    ensures
        below_rank(available, key, e, n, m) == below_rank(available, key, d, n - 1, m),
    decreases m,
{
    if m > 0 {
        lemma_below_step(available, key, e, d, n, m - 1);
        let k = m - 1;
        let x = n - 1;
        if available[k] > 0 && available[x] > 0 {
            if key_before(key, k, x) {
                lemma_ahead_grows(available, key, k, x, n - 1);
            } else {
                assert(key_before(key, x, k));
                lemma_ahead_grows(available, key, x, k, n - 1);
            }
        }
    }
}

proof fn lemma_below_rank(available: Seq<usize>, key: spec_fn(int) -> int, e: int, n: int)
    requires
        0 <= n <= available.len(),
        0 <= e,
    ensures
        below_rank(available, key, e, n, n) == crate::text::min(
            e,
            active_to(available, n) as int,
        ),
    decreases n,
{
    if n > 0 {
        let first = available[n - 1] > 0 && ahead(available, key, n - 1, n - 1) < e;
        let d = if first {
            e - 1
        } else {
            e
        };
        lemma_below_step(available, key, e, d, n, n - 1);
        lemma_below_rank(available, key, d, n - 1);
        lemma_ahead_bound(available, key, n - 1, n - 1);
    }
}

proof fn lemma_ahead_bound(available: Seq<usize>, key: spec_fn(int) -> int, k: int, n: int)
    ensures
        ahead(available, key, k, n) <= active_to(available, n),
    decreases n,
{
    if n > 0 {
        lemma_ahead_bound(available, key, k, n - 1);
    }
}

/// Sum of the targets of the first `n` keywords.
pub open spec fn target_sum(available: Seq<usize>, draws: Seq<u64>, limit: int, n: int) -> int
    decreases n,
{
    if n <= 0 {
        0
    } else {
        target_sum(available, draws, limit, n - 1) + target(available, draws, limit, n - 1)
    }
}

/// Sum of what is left over of the shares of the first `n` keywords.
spec fn rest_sum(available: Seq<usize>, remaining: int, n: int) -> int
    decreases n,
{
    if n <= 0 {
        0
    } else {
        rest_sum(available, remaining, n - 1) + if available[n - 1] > 0 {
            share_rest(available, remaining, n - 1)
        } else {
            0
        }
    }
}

proof fn lemma_rests(available: Seq<usize>, remaining: int, n: int)
    requires
        0 <= n <= available.len(),
        0 <= remaining,
        weight_sum(available, available.len() as int) > 0,
    ensures
        share_sum(available, remaining, n) * weight_sum(available, available.len() as int)
            + rest_sum(available, remaining, n) == remaining * weight_sum(available, n),
        0 <= rest_sum(available, remaining, n) <= active_to(available, n) * (weight_sum(
            available,
            available.len() as int,
        ) - 1),
    decreases n,
{
    let total = weight_sum(available, available.len() as int) as int;
    if n > 0 {
        lemma_rests(available, remaining, n - 1);
        let w = priority_weight(available, n - 1) as int;
        let s = share_sum(available, remaining, n - 1);
        let r = rest_sum(available, remaining, n - 1);
        let sum = weight_sum(available, n - 1) as int;
        let a = active_to(available, n - 1) as int;
        if available[n - 1] > 0 {
            lemma_share(available, remaining, n - 1);
            let q = share(available, remaining, n - 1);
            let x = share_rest(available, remaining, n - 1);
            assert(q * total + x == remaining * w) by (nonlinear_arith)
                requires
                    q == remaining * w / total,
                    x == remaining * w % total,
                    total > 0,
            ;
            assert((s + q) * total + (r + x) == remaining * (sum + w)) by (nonlinear_arith)
                requires
                    q * total + x == remaining * w,
                    s * total + r == remaining * sum,
            ;
            assert(r + x <= (a + 1) * (total - 1)) by (nonlinear_arith)
                requires
                    r <= a * (total - 1),
                    x <= total - 1,
            ;
        } else {
            assert(w == 0);
            assert(remaining * sum == remaining * (sum + w));
        }
    } else {
        assert(share_sum(available, remaining, n) * total == 0) by (nonlinear_arith)
            requires
                share_sum(available, remaining, n) == 0,
        ;
        assert(remaining * weight_sum(available, n) == 0) by (nonlinear_arith)
            requires
                weight_sum(available, n) == 0,
        ;
        assert(active_to(available, n) * (total - 1) == 0) by (nonlinear_arith)
            requires
                active_to(available, n) == 0,
        ;
    }
}

proof fn lemma_target_sum(available: Seq<usize>, draws: Seq<u64>, limit: int, n: int)
    requires
        0 <= n <= available.len(),
    ensures
        ({
            let all = available.len() as int;
            let active = active_count(available) as int;
            let remaining = limit - active;
            target_sum(available, draws, limit, n) == if active > limit {
                below_rank(available, |i: int| draws[i] as int, limit, all, n) as int
            } else if remaining == 0 {
                active_to(available, n) as int
            } else {
                active_to(available, n) + share_sum(available, remaining, n) + below_rank(
                    available,
                    |i: int| share_rest(available, remaining, i),
                    remaining - share_sum(available, remaining, all),
                    all,
                    n,
                )
            }
        }),
    decreases n,
{
    if n > 0 {
        lemma_target_sum(available, draws, limit, n - 1);
    }
}

/// The targets of the keywords fill the feed exactly, wherever any keyword has
/// found papers.
pub proof fn lemma_targets_fill_the_feed(available: Seq<usize>, draws: Seq<u64>, limit: int)
    requires
        0 <= limit,
        active_count(available) > 0,
    ensures
        target_sum(available, draws, limit, available.len() as int) == limit,
{
    let n = available.len() as int;
    let active = active_count(available) as int;
    let remaining = limit - active;
    lemma_target_sum(available, draws, limit, n);
    if active > limit {
        lemma_below_rank(available, |i: int| draws[i] as int, limit, n);
    } else if remaining > 0 {
        lemma_active_exists(available, n);
        let k = choose|k: int| 0 <= k < n && available[k] > 0;
        lemma_share(available, remaining, k);
        lemma_shares_fit(available, remaining, n);
        lemma_rests(available, remaining, n);
        let total = weight_sum(available, n) as int;
        let given = share_sum(available, remaining, n);
        let rest = rest_sum(available, remaining, n);
        let extra = remaining - given;
        assert(0 <= extra <= active) by (nonlinear_arith)
            requires
                given * total + rest == remaining * total,
                0 <= rest <= active * (total - 1),
                total > 0,
                active >= 0,
                extra == remaining - given,
        ;
        lemma_below_rank(available, |i: int| share_rest(available, remaining, i), extra, n);
    }
}

/// Where there is room for all keywords, each with papers gets at least one, and an
/// earlier one never fewer than a later one. One without papers gets none.
pub proof fn lemma_earlier_keywords_get_no_fewer(
    available: Seq<usize>,
    draws: Seq<u64>,
    limit: int,
    i: int,
    j: int,
)
    requires
        0 <= i < j < available.len(),
        active_count(available) <= limit,
    ensures
        available[i] > 0 ==> target(available, draws, limit, i) >= 1,
        available[j] > 0 ==> target(available, draws, limit, j) >= 1,
        available[i] == 0 ==> target(available, draws, limit, i) == 0,
        available[j] == 0 ==> target(available, draws, limit, j) == 0,
        available[i] > 0 && available[j] > 0 ==> target(available, draws, limit, i) >= target(
            available,
            draws,
            limit,
            j,
        ),
{
    let n = available.len() as int;
    let remaining = limit - active_count(available);
    if available[i] > 0 {
        lemma_share(available, remaining, i);
    }
    if available[j] > 0 {
        lemma_share(available, remaining, j);
    }
    if available[i] > 0 && available[j] > 0 && remaining > 0 {
        lemma_weights_are_gentle(available, i, j);
        let total = weight_sum(available, n) as int;
        let wi = priority_weight(available, i) as int;
        let wj = priority_weight(available, j) as int;
        let key = |k: int| share_rest(available, remaining, k);
        assert(remaining * wi > remaining * wj) by (nonlinear_arith)
            requires
                remaining > 0,
                wi > wj,
        ;
        let a = remaining * wi;
        let b = remaining * wj;
        assert(a / total >= b / total && (a / total == b / total ==> a % total > b % total))
            by (nonlinear_arith)
            requires
                a > b,
                total > 0,
        ;
        if a / total == b / total {
            assert(key_before(key, i, j));
            lemma_ahead_grows(available, key, i, j, n);
        }
    }
}

/// The target of a keyword is one and its share of the other places by weight, rounded
/// up or down.
pub proof fn lemma_target_is_a_share(available: Seq<usize>, draws: Seq<u64>, limit: int, k: int)
    requires
        0 <= k < available.len(),
        available[k] > 0,
        active_count(available) <= limit,
    ensures
        ({
            let total = weight_sum(available, available.len() as int) as int;
            let due = (limit - active_count(available)) * priority_weight(available, k);
            let extra = target(available, draws, limit, k) - 1;
            extra >= 0 && due - total < extra * total <= due + total
        }),
{
    let remaining = limit - active_count(available);
    let total = weight_sum(available, available.len() as int) as int;
    let due = remaining * priority_weight(available, k);
    let extra = target(available, draws, limit, k) - 1;
    lemma_share(available, remaining, k);
    let q = share(available, remaining, k);
    if remaining == 0 {
        assert(due == 0) by (nonlinear_arith)
            requires
                due == remaining * priority_weight(available, k),
                remaining == 0,
        ;
        assert(extra * total == 0) by (nonlinear_arith)
            requires
                extra == 0,
        ;
    } else {
        assert(due - total < extra * total <= due + total) by (nonlinear_arith)
            requires
                q == due / total,
                total > 0,
                extra == q || extra == q + 1,
        ;
    }
}

/// With more keywords than places no keyword gets more than one, and of two with papers
/// the one with the larger draw of the day comes first.
pub proof fn lemma_draws_decide(
    available: Seq<usize>,
    draws: Seq<u64>,
    limit: int,
    i: int,
    j: int,
)
    requires
        0 <= i < available.len(),
        0 <= j < available.len(),
        available[i] > 0,
        available[j] > 0,
        active_count(available) > limit >= 0,
    ensures
        0 <= target(available, draws, limit, i) <= 1,
        draws[i] > draws[j] || (draws[i] == draws[j] && i < j) ==> target(
            available,
            draws,
            limit,
            i,
        ) >= target(available, draws, limit, j),
{
    let n = available.len() as int;
    let key = |k: int| draws[k] as int;
    if draws[i] > draws[j] || (draws[i] == draws[j] && i < j) {
        assert(key_before(key, i, j));
        lemma_ahead_grows(available, key, i, j, n);
    }
}

/// Ranks are compared byte by byte: the first byte that differs decides.
pub proof fn lemma_first_byte_decides(a: Seq<u8>, b: Seq<u8>, k: int)
    requires
        0 <= k < a.len(),
        k < b.len(),
        a[k] != b[k],
        forall|i: int| 0 <= i < k ==> #[trigger] a[i] == b[i],
    ensures
        bytes_le(a, b) == (a[k] < b[k]),
    decreases k,
{
    if k > 0 {
        assert(a[0] == b[0]);
        let x = a.drop_first();
        let y = b.drop_first();
        assert forall|i: int| 0 <= i < k - 1 implies #[trigger] x[i] == y[i] by {
            assert(a[i + 1] == b[i + 1]);
        }
        lemma_first_byte_decides(x, y, k - 1);
    }
}

/// On one day the paper with the smaller rank comes first, and of equal ranks the one
/// with the smaller identifier.
pub proof fn lemma_rank_orders_the_day(
    a: RemotePaperView,
    b: RemotePaperView,
    date: Seq<char>,
    keyword: Seq<char>,
    k: int,
)
    requires
        ({
            let (x, y) = (daily_rank(date, keyword, a.id), daily_rank(date, keyword, b.id));
            &&& 0 <= k < x.len() && k < y.len()
            &&& x[k] != y[k]
            &&& forall|i: int| 0 <= i < k ==> #[trigger] x[i] == y[i]
        }),
    ensures
        day_le(a, b, date, keyword) == (daily_rank(date, keyword, a.id)[k] < daily_rank(
            date,
            keyword,
            b.id,
        )[k]),
{
    lemma_first_byte_decides(
        daily_rank(date, keyword, a.id),
        daily_rank(date, keyword, b.id),
        k,
    );
    lemma_first_byte_decides(
        daily_rank(date, keyword, b.id),
        daily_rank(date, keyword, a.id),
        k,
    );
}

/// A candidate that comes next has, of those that as many lacking keywords found, the
/// most matches; of those the largest weight of what is lacking; of those the largest
/// rank of the day; of those the most keywords whole in the title; and of those the most
/// terms in the title.
pub proof fn lemma_no_better_candidate_is_left(
    cands: Seq<CandidateView>,
    represented: Seq<usize>,
    targets: Seq<usize>,
    weights: Seq<usize>,
    i: int,
)
    requires
        0 <= i < cands.len(),
    ensures
        ({
            let b = best_of(cands, represented, targets, weights, cands.len() as int);
            let (x, y) = (cands[b], cands[i]);
            let cover = |c: CandidateView|
                coverage(c.matches, represented, targets, c.matches.len() as int);
            let lack = |c: CandidateView|
                weighted_coverage(c.matches, represented, targets, weights, c.matches.len() as int);
            let whole = |c: CandidateView| full_matches(c.matches, c.matches.len() as int);
            let terms = |c: CandidateView| term_matches(c.matches, c.matches.len() as int);
            let same_place = cover(x) == cover(y) && x.matches.len() == y.matches.len() && lack(x)
                == lack(y) && x.daily_rank == y.daily_rank;
            &&& 0 <= b < cands.len()
            &&& cover(x) >= cover(y)
            &&& cover(x) == cover(y) ==> x.matches.len() >= y.matches.len()
            &&& cover(x) == cover(y) && x.matches.len() == y.matches.len() ==> lack(x) >= lack(y)
            &&& same_place ==> whole(x) >= whole(y)
            &&& same_place && whole(x) == whole(y) ==> terms(x) >= terms(y)
        }),
{
    let b = best_of(cands, represented, targets, weights, cands.len() as int);
    lemma_best_is_best(cands, represented, targets, weights, cands.len() as int);
    assert(score_le(
        score(cands[i], represented, targets, weights),
        score(cands[b], represented, targets, weights),
    ));
}

} // verus!
