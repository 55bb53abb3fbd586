//! What the daily feed is for: every keyword gets its papers, and a paper that several
//! keywords found comes before one that a single keyword found.
//!
//! Everything is said of the papers that the keywords found, and of the feed.

use crate::chars::alphanumeric;
use crate::dashboard::{
    active_to, availability, best_of, bytes_le, candidate_place, chosen, collected, counted,
    coverage, daily_rank, feed, found_by, match_of, matches_keyword, priority_weight, score,
    score_le, swap_removed, targets_of, term_end, terms_from, title_strength, weighted_coverage,
    weights_of, with_paper, with_papers, Bucket, CandidateView, KeywordMatch,
};
use crate::model::{papers_view, RemotePaperView};
use crate::strings::{lower, occurs};
use vstd::prelude::*;

verus! {

/// The sum of `f` over `0..n`.
pub open spec fn sum_of(n: int, f: spec_fn(int) -> int) -> int
    decreases n,
{
    if n <= 0 {
        0
    } else {
        sum_of(n - 1, f) + f(n - 1)
    }
}

/// One for what holds, and nothing for what does not.
pub open spec fn one_if(b: bool) -> int {
    if b {
        1
    } else {
        0
    }
}

/// Whether the first `m` papers of a keyword hold one with an identifier.
pub open spec fn among(papers: Seq<RemotePaperView>, m: int, id: Seq<char>) -> bool {
    exists|k: int| 0 <= k < m && (#[trigger] papers[k]).id == id
}

/// Whether keyword `w` has found the paper with an identifier.
pub open spec fn finds(buckets: Seq<Bucket>, w: int, id: Seq<char>) -> bool {
    0 <= w < buckets.len() && among(
        papers_view(buckets[w].papers@),
        buckets[w].papers@.len() as int,
        id,
    )
}

/// How many of the first `i` papers keyword `w` has found.
pub open spec fn papers_of(
    found: spec_fn(int, Seq<char>) -> bool,
    papers: Seq<RemotePaperView>,
    i: int,
    w: int,
) -> int {
    sum_of(i, |j: int| one_if(found(w, papers[j].id)))
}

/// How many of `n` keywords have found a paper.
pub open spec fn finders(found: spec_fn(int, Seq<char>) -> bool, n: int, id: Seq<char>) -> int {
    sum_of(n, |w: int| one_if(found(w, id)))
}

/// How many of `n` keywords have found a paper and still lack papers.
pub open spec fn lacking_finders(
    found: spec_fn(int, Seq<char>) -> bool,
    n: int,
    id: Seq<char>,
    lack: spec_fn(int) -> int,
) -> int {
    sum_of(n, |w: int| one_if(found(w, id) && lack(w) > 0))
}

/// What the keywords that have found a paper still lack, by their weight.
pub open spec fn weighted_lack(
    found: spec_fn(int, Seq<char>) -> bool,
    n: int,
    id: Seq<char>,
    lack: spec_fn(int) -> int,
    weight: spec_fn(int) -> int,
) -> int {
    sum_of(
        n,
        |w: int|
            if found(w, id) && lack(w) > 0 {
                lack(w) * weight(w)
            } else {
                0
            },
    )
}

/// Whether paper `a` goes before paper `b` while keyword `w` lacks `lack(w)` papers: more
/// of the lacking keywords have found it; or else more keywords have; or else they lack
/// more, by weight; or else the day puts it first.
pub open spec fn goes_before(
    found: spec_fn(int, Seq<char>) -> bool,
    n: int,
    lack: spec_fn(int) -> int,
    weight: spec_fn(int) -> int,
    rank: spec_fn(Seq<char>) -> Seq<u8>,
    a: Seq<char>,
    b: Seq<char>,
) -> bool {
    let (la, lb) = (lacking_finders(found, n, a, lack), lacking_finders(found, n, b, lack));
    let (fa, fb) = (finders(found, n, a), finders(found, n, b));
    let (wa, wb) = (
        weighted_lack(found, n, a, lack, weight),
        weighted_lack(found, n, b, lack, weight),
    );
    &&& la >= lb
    &&& la == lb ==> fa >= fb
    &&& la == lb && fa == fb ==> wa >= wb
    &&& la == lb && fa == fb && wa == wb ==> bytes_le(rank(b), rank(a))
}

// ---------------------------------------------------------------------------
// Sums
// ---------------------------------------------------------------------------

proof fn lemma_sum_same(n: int, f: spec_fn(int) -> int, g: spec_fn(int) -> int)
    requires
        forall|w: int| 0 <= w < n ==> #[trigger] f(w) == g(w),
    ensures
        sum_of(n, f) == sum_of(n, g),
    decreases n,
{
    if n > 0 {
        lemma_sum_same(n - 1, f, g);
        assert(f(n - 1) == g(n - 1));
    }
}

proof fn lemma_sum_one_more(n: int, f: spec_fn(int) -> int, g: spec_fn(int) -> int, k: int)
    requires
        0 <= k < n,
        forall|w: int| 0 <= w < n && w != k ==> #[trigger] f(w) == g(w),
    ensures
        sum_of(n, f) == sum_of(n, g) + f(k) - g(k),
    decreases n,
{
    if k == n - 1 {
        lemma_sum_same(n - 1, f, g);
    } else {
        lemma_sum_one_more(n - 1, f, g, k);
        assert(f(n - 1) == g(n - 1));
    }
}

proof fn lemma_sum_first(n: int, f: spec_fn(int) -> int)
    requires
        n > 0,
    ensures
        sum_of(n, f) == f(0) + sum_of(n - 1, |j: int| f(j + 1)),
    decreases n,
{
    let g = |j: int| f(j + 1);
    if n > 1 {
        lemma_sum_first(n - 1, f);
        assert(sum_of(n - 1, g) == sum_of(n - 2, g) + g(n - 2));
        assert(g(n - 2) == f(n - 1));
    } else {
        assert(sum_of(0, f) == 0);
        assert(sum_of(0, g) == 0);
    }
}

proof fn lemma_sum_zero(n: int, f: spec_fn(int) -> int)
    requires
        forall|w: int| 0 <= w < n ==> #[trigger] f(w) == 0,
    ensures
        sum_of(n, f) == 0,
    decreases n,
{
    if n > 0 {
        lemma_sum_zero(n - 1, f);
        assert(f(n - 1) == 0);
    }
}

/// The sum of `f` over the keywords of the first `m` matches.
spec fn match_sum(matches: Seq<KeywordMatch>, m: int, f: spec_fn(int) -> int) -> int
    decreases m,
{
    if m <= 0 {
        0
    } else {
        match_sum(matches, m - 1, f) + f(matches[m - 1].keyword_index as int)
    }
}

/// Whether no keyword has two matches, and all are of the first `n` keywords.
spec fn matches_apart(matches: Seq<KeywordMatch>, n: int) -> bool {
    &&& forall|i: int| 0 <= i < matches.len() ==> (#[trigger] matches[i]).keyword_index < n
    &&& forall|i: int, j: int|
        0 <= i < j < matches.len() ==> (#[trigger] matches[i]).keyword_index != (
        #[trigger] matches[j]).keyword_index
}

/// The sum over the matches of a candidate is the sum over the keywords that they are of.
proof fn lemma_sum_of_matches(
    matches: Seq<KeywordMatch>,
    n: int,
    f: spec_fn(int) -> int,
    g: spec_fn(int) -> int,
)
    requires
        matches_apart(matches, n),
        n <= usize::MAX,
        forall|w: int|
            0 <= w < n ==> #[trigger] g(w) == (if matches_keyword(matches, w as usize) {
                f(w)
            } else {
                0
            }),
    ensures
        match_sum(matches, matches.len() as int, f) == sum_of(n, g),
    decreases matches.len(),
{
    let m = matches.len() as int;
    if m == 0 {
        lemma_sum_zero(n, g);
    } else {
        let rest = matches.drop_last();
        let before = |w: int|
            if matches_keyword(rest, w as usize) {
                f(w)
            } else {
                0
            };
        lemma_sum_of_matches(rest, n, f, before);
        lemma_match_sum_prefix(matches, rest, m - 1, f);
        let k = matches[m - 1].keyword_index as int;
        assert(matches_keyword(matches, k as usize));
        assert(!matches_keyword(rest, k as usize)) by {
            if matches_keyword(rest, k as usize) {
                let i = choose|i: int| 0 <= i < m - 1 && (#[trigger] rest[i]).keyword_index == k;
                assert(matches[i].keyword_index == matches[m - 1].keyword_index);
            }
        }
        assert forall|w: int| 0 <= w < n && w != k implies #[trigger] g(w) == before(w) by {
            if matches_keyword(matches, w as usize) {
                let i = choose|i: int|
                    0 <= i < m && (#[trigger] matches[i]).keyword_index == w as usize;
                assert(rest[i].keyword_index == w as usize);
            }
            if matches_keyword(rest, w as usize) {
                let i = choose|i: int|
                    0 <= i < m - 1 && (#[trigger] rest[i]).keyword_index == w as usize;
                assert(matches[i].keyword_index == w as usize);
            }
        }
        lemma_sum_one_more(n, g, before, k);
        assert(g(k) == f(k));
        assert(before(k) == 0);
    }
}

proof fn lemma_match_sum_prefix(
    a: Seq<KeywordMatch>,
    b: Seq<KeywordMatch>,
    m: int,
    f: spec_fn(int) -> int,
)
    requires
        m <= a.len(),
        m <= b.len(),
        forall|i: int| 0 <= i < m ==> #[trigger] a[i] == b[i],
    ensures
        match_sum(a, m, f) == match_sum(b, m, f),
    decreases m,
{
    if m > 0 {
        lemma_match_sum_prefix(a, b, m - 1, f);
        assert(a[m - 1] == b[m - 1]);
    }
}

// ---------------------------------------------------------------------------
// Candidates
// ---------------------------------------------------------------------------

/// Whether the matches of candidates are of the keywords that have found their papers.
spec fn matches_are(
    cands: Seq<CandidateView>,
    n: int,
    found: spec_fn(int, Seq<char>) -> bool,
) -> bool {
    forall|c: int|
        #![trigger cands[c]]
        0 <= c < cands.len() ==> matches_apart(cands[c].matches, n) && found_are(cands[c], n, found)
}

/// Whether the matches of a candidate are of the keywords that have found its paper.
spec fn found_are(c: CandidateView, n: int, found: spec_fn(int, Seq<char>) -> bool) -> bool {
    forall|w: int|
        0 <= w < n ==> #[trigger] matches_keyword(c.matches, w as usize) == found(w, c.paper.id)
}

proof fn lemma_coverage(
    c: CandidateView,
    represented: Seq<usize>,
    targets: Seq<usize>,
    weights: Seq<usize>,
    m: int,
    lacks: spec_fn(int) -> int,
    weighs: spec_fn(int) -> int,
    one: spec_fn(int) -> int,
    n: int,
)
    requires
        0 <= m <= c.matches.len(),
        matches_apart(c.matches, n),
        forall|w: int|
            0 <= w < n ==> #[trigger] lacks(w) == one_if(targets[w] - represented[w] > 0),
        forall|w: int|
            0 <= w < n ==> #[trigger] weighs(w) == (if targets[w] - represented[w] > 0 {
                (targets[w] - represented[w]) * weights[w]
            } else {
                0
            }),
        forall|w: int| #[trigger] one(w) == 1,
    ensures
        coverage(c.matches, represented, targets, m) == match_sum(c.matches, m, lacks),
        weighted_coverage(c.matches, represented, targets, weights, m) == match_sum(
            c.matches,
            m,
            weighs,
        ),
        m == match_sum(c.matches, m, one),
    decreases m,
{
    if m > 0 {
        lemma_coverage(c, represented, targets, weights, m - 1, lacks, weighs, one, n);
        let k = c.matches[m - 1].keyword_index as int;
        assert(0 <= k < n);
        let t = targets[k] - represented[k];
        let v = weights[k] as int;
        assert(t > 0 ==> t * v >= 0) by (nonlinear_arith)
            requires
                v >= 0,
        ;
        assert(lacks(k) == one_if(t > 0));
        assert(weighs(k) == if t > 0 {
            t * v
        } else {
            0
        });
        assert(one(k) == 1);
    }
}

/// What is compared of a candidate, said of the keywords that have found its paper.
proof fn lemma_score(
    c: CandidateView,
    represented: Seq<usize>,
    targets: Seq<usize>,
    weights: Seq<usize>,
    n: int,
    found: spec_fn(int, Seq<char>) -> bool,
    lack: spec_fn(int) -> int,
    weight: spec_fn(int) -> int,
)
    requires
        0 <= n <= usize::MAX,
        matches_apart(c.matches, n),
        found_are(c, n, found),
        forall|w: int| 0 <= w < n ==> #[trigger] lack(w) == targets[w] - represented[w],
        forall|w: int| 0 <= w < n ==> #[trigger] weight(w) == weights[w],
    ensures
        score(c, represented, targets, weights).coverage == lacking_finders(
            found,
            n,
            c.paper.id,
            lack,
        ),
        score(c, represented, targets, weights).matches == finders(found, n, c.paper.id),
        score(c, represented, targets, weights).weighted == weighted_lack(
            found,
            n,
            c.paper.id,
            lack,
            weight,
        ),
{
    let id = c.paper.id;
    let m = c.matches.len() as int;
    let lacks = |w: int| one_if(targets[w] - represented[w] > 0);
    let weighs = |w: int|
        if targets[w] - represented[w] > 0 {
            (targets[w] - represented[w]) * weights[w]
        } else {
            0
        };
    let one = |w: int| 1int;
    lemma_coverage(c, represented, targets, weights, m, lacks, weighs, one, n);
    let a = |w: int| one_if(found(w, id) && lack(w) > 0);
    let b = |w: int| one_if(found(w, id));
    let d = |w: int|
        if found(w, id) && lack(w) > 0 {
            lack(w) * weight(w)
        } else {
            0
        };
    assert forall|w: int| 0 <= w < n implies #[trigger] a(w) == (if matches_keyword(
        c.matches,
        w as usize,
    ) {
        lacks(w)
    } else {
        0
    }) by {
        assert(matches_keyword(c.matches, w as usize) == found(w, id));
        assert(lack(w) == targets[w] - represented[w]);
    }
    lemma_sum_of_matches(c.matches, n, lacks, a);
    assert forall|w: int| 0 <= w < n implies #[trigger] b(w) == (if matches_keyword(
        c.matches,
        w as usize,
    ) {
        one(w)
    } else {
        0
    }) by {
        assert(matches_keyword(c.matches, w as usize) == found(w, id));
    }
    lemma_sum_of_matches(c.matches, n, one, b);
    assert forall|w: int| 0 <= w < n implies #[trigger] d(w) == (if matches_keyword(
        c.matches,
        w as usize,
    ) {
        weighs(w)
    } else {
        0
    }) by {
        assert(matches_keyword(c.matches, w as usize) == found(w, id));
        assert(lack(w) == targets[w] - represented[w]);
        assert(weight(w) == weights[w]);
    }
    lemma_sum_of_matches(c.matches, n, weighs, d);
}

/// Whether the daily rank of every candidate is that of its paper.
spec fn ranks_are(cands: Seq<CandidateView>, rank: spec_fn(Seq<char>) -> Seq<u8>) -> bool {
    forall|c: int| 0 <= c < cands.len() ==> (#[trigger] cands[c]).daily_rank == rank(cands[c].paper.id)
}

/// The best candidate goes before all others.
proof fn lemma_best_goes_before(
    cands: Seq<CandidateView>,
    represented: Seq<usize>,
    targets: Seq<usize>,
    weights: Seq<usize>,
    n: int,
    found: spec_fn(int, Seq<char>) -> bool,
    lack: spec_fn(int) -> int,
    weight: spec_fn(int) -> int,
    rank: spec_fn(Seq<char>) -> Seq<u8>,
    d: int,
)
    requires
        0 <= n <= usize::MAX,
        matches_are(cands, n, found),
        ranks_are(cands, rank),
        0 <= d < cands.len(),
        forall|w: int| 0 <= w < n ==> #[trigger] lack(w) == targets[w] - represented[w],
        forall|w: int| 0 <= w < n ==> #[trigger] weight(w) == weights[w],
    ensures
        ({
            let b = best_of(cands, represented, targets, weights, cands.len() as int);
            0 <= b < cands.len() && goes_before(
                found,
                n,
                lack,
                weight,
                rank,
                cands[b].paper.id,
                cands[d].paper.id,
            )
        }),
{
    let b = best_of(cands, represented, targets, weights, cands.len() as int);
    crate::dashboard::lemma_best_is_best(
        cands,
        represented,
        targets,
        weights,
        cands.len() as int,
    );
    lemma_score(cands[b], represented, targets, weights, n, found, lack, weight);
    lemma_score(cands[d], represented, targets, weights, n, found, lack, weight);
    let x = score(cands[d], represented, targets, weights);
    let y = score(cands[b], represented, targets, weights);
    assert(score_le(x, y));
    crate::dashboard::lemma_bytes_total(x.daily_rank, y.daily_rank);
}

proof fn lemma_counted(represented: Seq<usize>, matches: Seq<KeywordMatch>, m: int, n: int, w: int)
    requires
        0 <= m <= matches.len(),
        matches_apart(matches, n),
        0 <= w < n == represented.len(),
        n <= usize::MAX,
        forall|k: int| 0 <= k < n ==> #[trigger] represented[k] < usize::MAX,
    ensures
        counted(represented, matches, m).len() == n,
        counted(represented, matches, m)[w] == represented[w] + one_if(
            matches_keyword(matches.take(m), w as usize),
        ),
    decreases m,
{
    if m > 0 {
        let k = matches[m - 1].keyword_index as int;
        lemma_counted(represented, matches, m - 1, n, w);
        lemma_counted(represented, matches, m - 1, n, k);
        let old_part = matches.take(m - 1);
        let part = matches.take(m);
        if matches_keyword(old_part, w as usize) {
            let i = choose|i: int| 0 <= i < m - 1 && (#[trigger] old_part[i]).keyword_index == w;
            assert(part[i].keyword_index == w);
            assert(matches[i].keyword_index == w);
        }
        if w == k {
            assert(part[m - 1].keyword_index == w);
            assert(represented[w] < usize::MAX);
        } else if matches_keyword(part, w as usize) {
            let i = choose|i: int| 0 <= i < m && (#[trigger] part[i]).keyword_index == w;
            assert(old_part[i].keyword_index == w);
        }
    }
}

/// Whether `id` is that of one of the first `i` papers.
pub open spec fn shown_by(papers: Seq<RemotePaperView>, i: int, id: Seq<char>) -> bool {
    exists|j: int| 0 <= j < i && (#[trigger] papers[j]).id == id
}

proof fn lemma_chosen_in_order(
    cands: Seq<CandidateView>,
    represented: Seq<usize>,
    targets: Seq<usize>,
    weights: Seq<usize>,
    limit: nat,
    n: int,
    found: spec_fn(int, Seq<char>) -> bool,
    weight: spec_fn(int) -> int,
    rank: spec_fn(Seq<char>) -> Seq<u8>,
    lack: spec_fn(int) -> int,
    i: int,
    d: int,
)
    requires
        0 <= n <= usize::MAX,
        represented.len() == n,
        matches_are(cands, n, found),
        ranks_are(cands, rank),
        forall|w: int| 0 <= w < n ==> #[trigger] weight(w) == weights[w],
        forall|w: int| 0 <= w < n ==> #[trigger] represented[w] + limit <= usize::MAX,
        0 <= i < chosen(cands, represented, targets, weights, limit).len(),
        0 <= d < cands.len(),
        !shown_by(chosen(cands, represented, targets, weights, limit), i, cands[d].paper.id),
        forall|w: int|
            0 <= w < n ==> #[trigger] lack(w) == targets[w] - represented[w] - papers_of(
                found,
                chosen(cands, represented, targets, weights, limit),
                i,
                w,
            ),
    ensures
        goes_before(
            found,
            n,
            lack,
            weight,
            rank,
            chosen(cands, represented, targets, weights, limit)[i].id,
            cands[d].paper.id,
        ),
    decreases limit,
{
    let papers = chosen(cands, represented, targets, weights, limit);
    let b = best_of(cands, represented, targets, weights, cands.len() as int);
    crate::dashboard::lemma_best_is_best(
        cands,
        represented,
        targets,
        weights,
        cands.len() as int,
    );
    let c = cands[b];
    let rest = swap_removed(cands, b);
    let next = counted(represented, c.matches, c.matches.len() as int);
    let behind = chosen(rest, next, targets, weights, (limit - 1) as nat);
    assert(papers == seq![c.paper] + behind);
    if i == 0 {
        assert forall|w: int| 0 <= w < n implies #[trigger] lack(w) == targets[w] - represented[w] by {
            assert(papers_of(found, papers, 0, w) == 0);
        }
        lemma_best_goes_before(
            cands,
            represented,
            targets,
            weights,
            n,
            found,
            lack,
            weight,
            rank,
            d,
        );
    } else {
        let last = cands.len() - 1;
        assert(d != b) by {
            assert(papers[0].id == c.paper.id);
        }
        let e = if d == last {
            b
        } else {
            d
        };
        assert(rest[e] == cands[d]);
        assert forall|x: int| 0 <= x < rest.len() implies #[trigger] rest[x] == cands[if x == b {
            last
        } else {
            x
        }] by {}
        assert(matches_are(rest, n, found));
        assert(ranks_are(rest, rank));
        assert(c.matches.take(c.matches.len() as int) =~= c.matches);
        assert(matches_apart(c.matches, n));
        assert(next.len() == n) by {
            if n > 0 {
                lemma_counted(represented, c.matches, c.matches.len() as int, n, 0);
            } else {
                assert(c.matches.len() == 0) by {
                    if c.matches.len() > 0 {
                        assert(c.matches[0].keyword_index < n);
                    }
                }
            }
        }
        assert forall|w: int| 0 <= w < n implies #[trigger] next[w] == represented[w] + one_if(
            found(w, c.paper.id),
        ) by {
            lemma_counted(represented, c.matches, c.matches.len() as int, n, w);
            assert(matches_keyword(c.matches, w as usize) == found(w, c.paper.id));
        }
        assert forall|w: int| 0 <= w < n implies #[trigger] lack(w) == targets[w] - next[w]
            - papers_of(found, behind, i - 1, w) by {
            let f = |j: int| one_if(found(w, papers[j].id));
            let g = |j: int| one_if(found(w, behind[j].id));
            let shifted = |j: int| f(j + 1);
            lemma_sum_first(i, f);
            assert forall|j: int| 0 <= j < i - 1 implies #[trigger] shifted(j) == g(j) by {
                assert(papers[j + 1] == behind[j]);
            }
            lemma_sum_same(i - 1, shifted, g);
            assert(f(0) == one_if(found(w, c.paper.id)));
            assert(next[w] == represented[w] + one_if(found(w, c.paper.id)));
        }
        assert(!shown_by(behind, i - 1, rest[e].paper.id)) by {
            if shown_by(behind, i - 1, rest[e].paper.id) {
                let j = choose|j: int|
                    0 <= j < i - 1 && (#[trigger] behind[j]).id == rest[e].paper.id;
                assert(papers[j + 1] == behind[j]);
            }
        }
        assert(papers[i] == behind[i - 1]);
        lemma_chosen_in_order(
            rest,
            next,
            targets,
            weights,
            (limit - 1) as nat,
            n,
            found,
            weight,
            rank,
            lack,
            i - 1,
            e,
        );
    }
}

// ---------------------------------------------------------------------------
// From what the keywords found
// ---------------------------------------------------------------------------

/// Whether a paper is known to be found by keyword `w` once the first `b` keywords and
/// `m` papers of the next have been gone through.
spec fn seen(buckets: Seq<Bucket>, b: int, m: int, w: int, id: Seq<char>) -> bool {
    if w < b {
        finds(buckets, w, id)
    } else {
        w == b && among(papers_view(buckets[b].papers@), m, id)
    }
}

/// Whether the candidates are the papers that have been gone through, each once, with
/// the keywords that have found them.
spec fn gathered(cands: Seq<CandidateView>, buckets: Seq<Bucket>, b: int, m: int, date: Seq<char>) -> bool {
    &&& forall|c: int, d: int|
        0 <= c < d < cands.len() ==> (#[trigger] cands[c]).paper.id != (#[trigger] cands[d]).paper.id
    &&& forall|c: int|
        #![trigger cands[c]]
        0 <= c < cands.len() ==> {
            &&& matches_apart(cands[c].matches, b + 1)
            &&& found_are(
                cands[c],
                b + 1,
                |w: int, id: Seq<char>| seen(buckets, b, m, w, id),
            )
            &&& cands[c].daily_rank == daily_rank(date, "dashboard"@, cands[c].paper.id)
        }
    &&& forall|w: int, id: Seq<char>|
        0 <= w <= b && #[trigger] seen(buckets, b, m, w, id) ==> is_candidate(cands, id)
    &&& forall|c: int|
        0 <= c < cands.len() ==> exists|w: int|
            0 <= w <= b && #[trigger] seen(buckets, b, m, w, (#[trigger] cands[c]).paper.id)
}

/// Whether one of the candidates is the paper with an identifier.
spec fn is_candidate(cands: Seq<CandidateView>, id: Seq<char>) -> bool {
    exists|c: int| 0 <= c < cands.len() && (#[trigger] cands[c]).paper.id == id
}

proof fn lemma_seen_step(buckets: Seq<Bucket>, b: int, m: int, w: int, id: Seq<char>)
    requires
        0 <= b < buckets.len(),
        0 <= m < buckets[b].papers@.len(),
    ensures
        seen(buckets, b, m + 1, w, id) == (seen(buckets, b, m, w, id) || (w == b && papers_view(
            buckets[b].papers@,
        )[m].id == id)),
{
    let papers = papers_view(buckets[b].papers@);
    if w == b {
        if among(papers, m, id) {
            let k = choose|k: int| 0 <= k < m && (#[trigger] papers[k]).id == id;
            assert(papers[k].id == id);
        }
        if papers[m].id == id {
            assert(among(papers, m + 1, id));
        }
        if among(papers, m + 1, id) && papers[m].id != id {
            let k = choose|k: int| 0 <= k < m + 1 && (#[trigger] papers[k]).id == id;
            assert(papers[k].id == id);
        }
    }
}

proof fn lemma_found_step(
    old_one: CandidateView,
    new_one: CandidateView,
    buckets: Seq<Bucket>,
    b: int,
    m: int,
)
    requires
        0 <= b < buckets.len() <= usize::MAX,
        0 <= m < buckets[b].papers@.len(),
        old_one.paper == new_one.paper,
        matches_apart(old_one.matches, b + 1),
        found_are(old_one, b + 1, |w: int, id: Seq<char>| seen(buckets, b, m, w, id)),
        ({
            let id = papers_view(buckets[b].papers@)[m].id;
            if old_one.paper.id == id && !matches_keyword(old_one.matches, b as usize) {
                new_one.matches == old_one.matches.push(new_one.matches.last())
                    && new_one.matches.len() == old_one.matches.len() + 1
                    && new_one.matches.last().keyword_index == b
            } else {
                new_one.matches == old_one.matches
            }
        }),
    ensures
        matches_apart(new_one.matches, b + 1),
        found_are(new_one, b + 1, |w: int, id: Seq<char>| seen(buckets, b, m + 1, w, id)),
{
    let old_matches = old_one.matches;
    let matches = new_one.matches;
    let n = old_matches.len() as int;
    let this = old_one.paper.id;
    let grown = this == papers_view(buckets[b].papers@)[m].id && !matches_keyword(
        old_matches,
        b as usize,
    );
    if grown {
        assert forall|i: int| 0 <= i < matches.len() implies (#[trigger] matches[i]).keyword_index
            < b + 1 by {
            if i < n {
                assert(matches[i] == old_matches[i]);
            }
        }
        assert forall|i: int, j: int| 0 <= i < j < matches.len() implies (
        #[trigger] matches[i]).keyword_index != (#[trigger] matches[j]).keyword_index by {
            assert(matches[i] == old_matches[i]);
            if j < n {
                assert(matches[j] == old_matches[j]);
            }
        }
    }
    let now = |w: int, id: Seq<char>| seen(buckets, b, m + 1, w, id);
    let past = |w: int, id: Seq<char>| seen(buckets, b, m, w, id);
    assert forall|w: int| 0 <= w < b + 1 implies #[trigger] matches_keyword(matches, w as usize)
        == now(w, this) by {
        lemma_seen_step(buckets, b, m, w, this);
        assert(matches_keyword(old_matches, w as usize) == past(w, this));
        if grown {
            if matches_keyword(old_matches, w as usize) {
                let i = choose|i: int|
                    0 <= i < n && (#[trigger] old_matches[i]).keyword_index == w as usize;
                assert(matches[i].keyword_index == w as usize);
            }
            if w == b {
                assert(matches[n].keyword_index == b);
            } else if matches_keyword(matches, w as usize) {
                let i = choose|i: int|
                    0 <= i < matches.len() && (#[trigger] matches[i]).keyword_index == w as usize;
                assert(i < n);
                assert(old_matches[i].keyword_index == w as usize);
            }
        }
    }
}

proof fn lemma_gathered_step(
    cands: Seq<CandidateView>,
    buckets: Seq<Bucket>,
    b: int,
    m: int,
    date: Seq<char>,
)
    requires
        0 <= b < buckets.len() <= usize::MAX,
        0 <= m < buckets[b].papers@.len(),
        gathered(cands, buckets, b, m, date),
    ensures
        gathered(
            with_paper(
                cands,
                papers_view(buckets[b].papers@)[m],
                b as usize,
                buckets[b].keyword@,
                date,
            ),
            buckets,
            b,
            m + 1,
            date,
        ),
{
    let paper = papers_view(buckets[b].papers@)[m];
    let more = with_paper(cands, paper, b as usize, buckets[b].keyword@, date);
    let n = cands.len() as int;
    crate::dashboard::lemma_candidate_place(cands, paper.id, 0);
    let place = candidate_place(cands, paper.id, 0);
    assert forall|c: int| 0 <= c < n implies more.len() >= n && (#[trigger] more[c]).paper
        == cands[c].paper by {}
    assert forall|c: int, d: int| 0 <= c < d < more.len() implies (#[trigger] more[c]).paper.id != (
    #[trigger] more[d]).paper.id by {
        if d < n {
            assert(cands[c].paper.id != cands[d].paper.id);
        }
    }
    assert forall|c: int| #![trigger more[c]] 0 <= c < more.len() implies {
        &&& matches_apart(more[c].matches, b + 1)
        &&& found_are(more[c], b + 1, |w: int, id: Seq<char>| seen(buckets, b, m + 1, w, id))
        &&& more[c].daily_rank == daily_rank(date, "dashboard"@, more[c].paper.id)
    } by {
        if c < n {
            let old_one = cands[c];
            if place == Some(c) {
                if !matches_keyword(old_one.matches, b as usize) {
                    assert(more[c].matches == old_one.matches.push(more[c].matches.last()));
                }
            } else {
                if old_one.paper.id == paper.id {
                    let k = place->0;
                    assert(k != c);
                    if k < c {
                        assert(cands[k].paper.id != cands[c].paper.id);
                    } else {
                        assert(cands[c].paper.id != cands[k].paper.id);
                    }
                }
                assert(more[c] == old_one);
            }
            lemma_found_step(old_one, more[c], buckets, b, m);
        } else {
            let one = more[c];
            assert(one.matches.len() == 1);
            assert(one.matches[0].keyword_index == b);
            assert forall|w: int| 0 <= w < b + 1 implies #[trigger] matches_keyword(
                one.matches,
                w as usize,
            ) == seen(buckets, b, m + 1, w, paper.id) by {
                lemma_seen_step(buckets, b, m, w, paper.id);
                if seen(buckets, b, m, w, paper.id) {
                    assert(is_candidate(cands, paper.id));
                    let k = choose|k: int|
                        0 <= k < cands.len() && (#[trigger] cands[k]).paper.id == paper.id;
                    assert(cands[k].paper.id != paper.id);
                }
                if w == b {
                    assert(matches_keyword(one.matches, w as usize));
                }
            }
        }
    }
    assert forall|w: int, id: Seq<char>|
        0 <= w <= b && #[trigger] seen(buckets, b, m + 1, w, id) implies is_candidate(
        more,
        id,
    ) by {
        lemma_seen_step(buckets, b, m, w, id);
        if seen(buckets, b, m, w, id) {
            assert(is_candidate(cands, id));
            let k = choose|k: int| 0 <= k < cands.len() && (#[trigger] cands[k]).paper.id == id;
            assert(more[k].paper.id == id);
        } else {
            match place {
                Some(k) => {
                    assert(more[k].paper.id == id);
                },
                None => {
                    assert(more[n].paper.id == id);
                },
            }
        }
    }
    assert forall|c: int| 0 <= c < more.len() implies exists|w: int|
        0 <= w <= b && #[trigger] seen(buckets, b, m + 1, w, (#[trigger] more[c]).paper.id) by {
        if c < n {
            let w = choose|w: int|
                0 <= w <= b && #[trigger] seen(buckets, b, m, w, cands[c].paper.id);
            lemma_seen_step(buckets, b, m, w, cands[c].paper.id);
            assert(seen(buckets, b, m + 1, w, more[c].paper.id));
        } else {
            lemma_seen_step(buckets, b, m, b, paper.id);
            assert(seen(buckets, b, m + 1, b, more[c].paper.id));
        }
    }
}

proof fn lemma_gathered_bucket(
    cands: Seq<CandidateView>,
    buckets: Seq<Bucket>,
    b: int,
    m: int,
    date: Seq<char>,
)
    requires
        0 <= b < buckets.len() <= usize::MAX,
        0 <= m <= buckets[b].papers@.len(),
        gathered(cands, buckets, b, 0, date),
    ensures
        gathered(
            with_papers(
                cands,
                papers_view(buckets[b].papers@),
                m,
                b as usize,
                buckets[b].keyword@,
                date,
            ),
            buckets,
            b,
            m,
            date,
        ),
    decreases m,
{
    if m > 0 {
        lemma_gathered_bucket(cands, buckets, b, m - 1, date);
        lemma_gathered_step(
            with_papers(
                cands,
                papers_view(buckets[b].papers@),
                m - 1,
                b as usize,
                buckets[b].keyword@,
                date,
            ),
            buckets,
            b,
            m - 1,
            date,
        );
    }
}

/// Whether the candidates are the papers of the first `n` keywords, each once, with the
/// keywords that have found them.
spec fn gathered_all(cands: Seq<CandidateView>, buckets: Seq<Bucket>, n: int, date: Seq<char>) -> bool {
    let found = |w: int, id: Seq<char>| finds(buckets, w, id);
    &&& forall|c: int, d: int|
        0 <= c < d < cands.len() ==> (#[trigger] cands[c]).paper.id != (#[trigger] cands[d]).paper.id
    &&& matches_are(cands, n, found)
    &&& ranks_are(cands, |id: Seq<char>| daily_rank(date, "dashboard"@, id))
    &&& forall|w: int, id: Seq<char>|
        0 <= w < n && #[trigger] finds(buckets, w, id) ==> is_candidate(cands, id)
    &&& forall|c: int|
        0 <= c < cands.len() ==> exists|w: int|
            0 <= w < n && #[trigger] finds(buckets, w, (#[trigger] cands[c]).paper.id)
}

proof fn lemma_gathered(buckets: Seq<Bucket>, n: int, date: Seq<char>)
    requires
        0 <= n <= buckets.len() <= usize::MAX,
    ensures
        gathered_all(collected(buckets, n, date), buckets, n, date),
    decreases n,
{
    let cands = collected(buckets, n, date);
    let found = |w: int, id: Seq<char>| finds(buckets, w, id);
    if n > 0 {
        lemma_gathered(buckets, n - 1, date);
        let b = n - 1;
        let before = collected(buckets, b, date);
        let nothing_yet = |w: int, id: Seq<char>| seen(buckets, b, 0, w, id);
        assert forall|c: int| #![trigger before[c]] 0 <= c < before.len() implies {
            &&& matches_apart(before[c].matches, b + 1)
            &&& found_are(before[c], b + 1, nothing_yet)
            &&& before[c].daily_rank == daily_rank(date, "dashboard"@, before[c].paper.id)
        } by {
            let one = before[c];
            assert(matches_apart(one.matches, b));
            assert forall|w: int| 0 <= w < b + 1 implies #[trigger] matches_keyword(
                one.matches,
                w as usize,
            ) == nothing_yet(w, one.paper.id) by {
                if w < b {
                    assert(matches_keyword(one.matches, w as usize) == found(w, one.paper.id));
                } else {
                    if matches_keyword(one.matches, w as usize) {
                        let i = choose|i: int|
                            0 <= i < one.matches.len() && (#[trigger] one.matches[i]).keyword_index
                                == w as usize;
                        assert(one.matches[i].keyword_index < b);
                    }
                }
            }
        }
        assert forall|w: int, id: Seq<char>|
            0 <= w <= b && #[trigger] seen(buckets, b, 0, w, id) implies is_candidate(
            before,
            id,
        ) by {
            assert(finds(buckets, w, id));
        }
        assert forall|c: int| 0 <= c < before.len() implies exists|w: int|
            0 <= w <= b && #[trigger] seen(buckets, b, 0, w, (#[trigger] before[c]).paper.id) by {
            let w = choose|w: int|
                0 <= w < b && #[trigger] finds(buckets, w, before[c].paper.id);
            assert(seen(buckets, b, 0, w, before[c].paper.id));
        }
        assert(gathered(before, buckets, b, 0, date));
        let m = buckets[b].papers@.len() as int;
        lemma_gathered_bucket(before, buckets, b, m, date);
        assert(gathered(cands, buckets, b, m, date));
        let all = |w: int, id: Seq<char>| seen(buckets, b, m, w, id);
        assert forall|w: int, id: Seq<char>| 0 <= w <= b implies #[trigger] seen(
            buckets,
            b,
            m,
            w,
            id,
        ) == finds(buckets, w, id) by {}
        assert forall|c: int| #![trigger cands[c]] 0 <= c < cands.len() implies matches_apart(
            cands[c].matches,
            n,
        ) && found_are(cands[c], n, found) by {
            assert forall|w: int| 0 <= w < n implies #[trigger] matches_keyword(
                cands[c].matches,
                w as usize,
            ) == found(w, cands[c].paper.id) by {
                assert(matches_keyword(cands[c].matches, w as usize) == all(w, cands[c].paper.id));
                assert(seen(buckets, b, m, w, cands[c].paper.id) == finds(
                    buckets,
                    w,
                    cands[c].paper.id,
                ));
            }
        }
        assert forall|w: int, id: Seq<char>|
            0 <= w < n && #[trigger] finds(buckets, w, id) implies is_candidate(cands, id) by {
            assert(seen(buckets, b, m, w, id));
        }
        assert forall|c: int| 0 <= c < cands.len() implies exists|w: int|
            0 <= w < n && #[trigger] finds(buckets, w, (#[trigger] cands[c]).paper.id) by {
            let w = choose|w: int|
                0 <= w <= b && #[trigger] seen(buckets, b, m, w, cands[c].paper.id);
            assert(finds(buckets, w, cands[c].paper.id));
        }
    }
}

/// At every place of the daily feed stands the paper that goes before all papers that
/// are left: the one that most of the keywords found that still lack papers; of those,
/// the one that most keywords found; of those, the one whose keywords lack most, by
/// weight; and of those the one that the day puts first. A keyword lacks what its target
/// exceeds the number of papers before that place that it has found.
pub proof fn lemma_feed_is_in_order(
    buckets: Seq<Bucket>,
    limit: nat,
    date: Seq<char>,
    draws: Seq<u64>,
    i: int,
    w: int,
    k: int,
)
    requires
        buckets.len() <= usize::MAX,
        limit <= usize::MAX,
        0 <= i < feed(buckets, limit, date, draws).len(),
        0 <= w < buckets.len(),
        0 <= k < buckets[w].papers@.len(),
        !shown_by(feed(buckets, limit, date, draws), i, buckets[w].papers@[k].id@),
    ensures
        ({
            let papers = feed(buckets, limit, date, draws);
            let n = buckets.len() as int;
            let available = availability(collected(buckets, n, date), buckets.len());
            let targets = targets_of(available, draws, limit as int);
            let found = |w: int, id: Seq<char>| finds(buckets, w, id);
            goes_before(
                found,
                n,
                |w: int| targets[w] - papers_of(found, papers, i, w),
                |w: int| weights_of(available)[w] as int,
                |id: Seq<char>| daily_rank(date, "dashboard"@, id),
                papers[i].id,
                buckets[w].papers@[k].id@,
            )
        }),
{
    let papers = feed(buckets, limit, date, draws);
    let n = buckets.len() as int;
    let cands = collected(buckets, n, date);
    let available = availability(cands, buckets.len());
    let targets = targets_of(available, draws, limit as int);
    let weights = weights_of(available);
    let found = |w: int, id: Seq<char>| finds(buckets, w, id);
    let none = Seq::new(buckets.len(), |k: int| 0usize);
    let id = buckets[w].papers@[k].id@;
    lemma_gathered(buckets, n, date);
    assert(papers_view(buckets[w].papers@)[k].id == id);
    assert(finds(buckets, w, id));
    assert(is_candidate(cands, id));
    let d = choose|d: int| 0 <= d < cands.len() && (#[trigger] cands[d]).paper.id == id;
    lemma_chosen_in_order(
        cands,
        none,
        targets,
        weights,
        limit,
        n,
        found,
        |w: int| weights_of(available)[w] as int,
        |id: Seq<char>| daily_rank(date, "dashboard"@, id),
        |w: int| targets[w] - papers_of(found, papers, i, w),
        i,
        d,
    );
}

/// The feed holds no more papers than were asked for, and fewer only where it holds all
/// that the keywords have found. Each of its papers was found by some keyword.
pub proof fn lemma_feed_is_full(
    buckets: Seq<Bucket>,
    limit: nat,
    date: Seq<char>,
    draws: Seq<u64>,
    w: int,
    k: int,
)
    requires
        buckets.len() <= usize::MAX,
        0 <= w < buckets.len(),
        0 <= k < buckets[w].papers@.len(),
    ensures
        ({
            let papers = feed(buckets, limit, date, draws);
            &&& papers.len() <= limit
            &&& papers.len() < limit ==> shown_by(
                papers,
                papers.len() as int,
                buckets[w].papers@[k].id@,
            )
            &&& forall|i: int|
                0 <= i < papers.len() ==> exists|v: int| #[trigger]
                    finds(buckets, v, (#[trigger] papers[i]).id)
        }),
{
    let papers = feed(buckets, limit, date, draws);
    let n = buckets.len() as int;
    let cands = collected(buckets, n, date);
    let available = availability(cands, buckets.len());
    let none = Seq::new(buckets.len(), |k: int| 0usize);
    let id = buckets[w].papers@[k].id@;
    lemma_gathered(buckets, n, date);
    assert(papers_view(buckets[w].papers@)[k].id == id);
    assert(finds(buckets, w, id));
    assert(is_candidate(cands, id));
    let d = choose|d: int| 0 <= d < cands.len() && (#[trigger] cands[d]).paper.id == id;
    let targets = targets_of(available, draws, limit as int);
    let weights = weights_of(available);
    crate::dashboard::lemma_feed_length(cands, none, targets, weights, limit);
    if papers.len() < limit {
        lemma_all_chosen(cands, none, targets, weights, limit, d);
    }
    crate::dashboard::lemma_collected(buckets, n, date);
    crate::dashboard::lemma_chosen(cands, none, targets, weights, limit);
    assert forall|i: int| 0 <= i < papers.len() implies exists|v: int| #[trigger]
        finds(buckets, v, (#[trigger] papers[i]).id) by {
        let c = choose|c: int| 0 <= c < cands.len() && (#[trigger] cands[c]).paper == papers[i];
        let v = choose|v: int|
            0 <= v < n && #[trigger] finds(buckets, v, cands[c].paper.id);
        assert(finds(buckets, v, papers[i].id));
    }
}

proof fn lemma_all_chosen(
    cands: Seq<CandidateView>,
    represented: Seq<usize>,
    targets: Seq<usize>,
    weights: Seq<usize>,
    limit: nat,
    d: int,
)
    requires
        0 <= d < cands.len() <= limit,
    ensures
        ({
            let papers = chosen(cands, represented, targets, weights, limit);
            shown_by(papers, papers.len() as int, cands[d].paper.id)
        }),
    decreases limit,
{
    let papers = chosen(cands, represented, targets, weights, limit);
    let b = best_of(cands, represented, targets, weights, cands.len() as int);
    crate::dashboard::lemma_best_is_best(
        cands,
        represented,
        targets,
        weights,
        cands.len() as int,
    );
    let rest = swap_removed(cands, b);
    let next = counted(represented, cands[b].matches, cands[b].matches.len() as int);
    let behind = chosen(rest, next, targets, weights, (limit - 1) as nat);
    assert(papers == seq![cands[b].paper] + behind);
    if d == b {
        assert(papers[0].id == cands[d].paper.id);
    } else {
        let e = if d == cands.len() - 1 {
            b
        } else {
            d
        };
        assert(rest[e] == cands[d]);
        lemma_all_chosen(rest, next, targets, weights, (limit - 1) as nat, e);
        let j = choose|j: int|
            0 <= j < behind.len() && (#[trigger] behind[j]).id == cands[d].paper.id;
        assert(papers[j + 1] == behind[j]);
    }
}

// ---------------------------------------------------------------------------
// Keywords and titles
// ---------------------------------------------------------------------------

proof fn lemma_terms_shift(a: Seq<char>, s: Seq<char>, k: int)
    requires
        0 <= k <= s.len(),
    ensures
        term_end(a + s, a.len() + k) == a.len() + term_end(s, k),
        terms_from(a + s, a.len() + k) == terms_from(s, k),
    decreases s.len() - k,
{
    let t = a + s;
    if k < s.len() {
        assert(t[a.len() + k] == s[k]);
        lemma_terms_shift(a, s, k + 1);
        crate::dashboard::lemma_term_end(s, k);
        if alphanumeric(s[k]) {
            let e = term_end(s, k);
            crate::dashboard::lemma_term_end(s, k + 1);
            lemma_terms_shift(a, s, e);
            assert(t.subrange(a.len() + k, a.len() + e) =~= s.subrange(k, e));
        }
    }
}

/// The words of a keyword are its runs of letters and digits, in lower case and in
/// their order: a run at the start is the first word, and what is no letter or digit
/// is passed over.
pub proof fn lemma_keyword_words(word: Seq<char>, rest: Seq<char>)
    requires
        forall|i: int| 0 <= i < word.len() ==> alphanumeric(#[trigger] word[i]),
        rest.len() > 0 ==> !alphanumeric(rest[0]),
    ensures
        word.len() > 0 ==> terms_from(word + rest, 0) == seq![lower(word)] + terms_from(rest, 0),
        rest.len() > 0 ==> terms_from(rest, 0) == terms_from(rest.drop_first(), 0),
        rest.len() == 0 ==> terms_from(rest, 0) == Seq::<Seq<char>>::empty(),
{
    let s = word + rest;
    if word.len() > 0 {
        lemma_run_end(word, rest, 0);
        assert(s[0] == word[0]);
        assert(s.subrange(0, word.len() as int) =~= word);
        lemma_terms_shift(word, rest, 0);
    }
    if rest.len() > 0 {
        let head = seq![rest[0]];
        assert(head + rest.drop_first() =~= rest);
        lemma_terms_shift(head, rest.drop_first(), 0);
    }
}

proof fn lemma_run_end(word: Seq<char>, rest: Seq<char>, k: int)
    requires
        forall|i: int| 0 <= i < word.len() ==> alphanumeric(#[trigger] word[i]),
        rest.len() > 0 ==> !alphanumeric(rest[0]),
        0 <= k <= word.len(),
    ensures
        term_end(word + rest, k) == word.len(),
    decreases word.len() - k,
{
    let s = word + rest;
    if k < word.len() {
        assert(s[k] == word[k]);
        lemma_run_end(word, rest, k + 1);
    } else if rest.len() > 0 {
        assert(s[k] == rest[0]);
    }
}

/// A title is matched by as many words of a keyword as it holds, without regard to
/// case, and by the whole keyword where it has words and the title holds all of them.
pub proof fn lemma_title_holds_words(index: usize, title: Seq<char>, keyword: Seq<char>)
    requires
        terms_from(keyword, 0).len() <= usize::MAX,
    ensures
        ({
            let terms = terms_from(keyword, 0);
            let m = match_of(index, title, keyword);
            &&& m.keyword_index == index
            &&& m.title_term_matches == sum_of(
                terms.len() as int,
                |i: int| one_if(occurs(lower(title), terms[i])),
            )
            &&& m.full_title_match <==> terms.len() > 0 && forall|i: int|
                0 <= i < terms.len() ==> occurs(lower(title), #[trigger] terms[i])
        }),
{
    let terms = terms_from(keyword, 0);
    lemma_strength(title, terms, terms.len() as int);
}

proof fn lemma_strength(title: Seq<char>, terms: Seq<Seq<char>>, n: int)
    requires
        0 <= n <= terms.len(),
    ensures
        title_strength(title, terms, n) == sum_of(
            n,
            |i: int| one_if(occurs(lower(title), terms[i])),
        ),
        title_strength(title, terms, n) <= n,
        title_strength(title, terms, n) == n <==> forall|i: int|
            0 <= i < n ==> occurs(lower(title), #[trigger] terms[i]),
    decreases n,
{
    let f = |i: int| one_if(occurs(lower(title), terms[i]));
    if n > 0 {
        lemma_strength(title, terms, n - 1);
        assert(f(n - 1) == one_if(occurs(lower(title), terms[n - 1])));
    }
}

/// The weight of a keyword with papers: eleven times the number of keywords with papers,
/// less one for itself and one for each of them before it.
pub proof fn lemma_weight_falls_by_one(available: Seq<usize>, k: int)
    requires
        0 <= k < available.len(),
    ensures
        ({
            let with_papers = |i: int| one_if(available[i] > 0);
            let all = sum_of(available.len() as int, with_papers);
            let before = sum_of(k, with_papers);
            priority_weight(available, k) == if available[k] > 0 {
                11 * all - before - 1
            } else {
                0
            }
        }),
{
    let with_papers = |i: int| one_if(available[i] > 0);
    lemma_active_sum(available, available.len() as int, with_papers);
    lemma_active_sum(available, k, with_papers);
    crate::dashboard::lemma_active_to(available, k, available.len() as int);
}

proof fn lemma_active_sum(available: Seq<usize>, n: int, f: spec_fn(int) -> int)
    requires
        0 <= n <= available.len(),
        forall|i: int| #[trigger] f(i) == one_if(available[i] > 0),
    ensures
        active_to(available, n) == sum_of(n, f),
    decreases n,
{
    if n > 0 {
        lemma_active_sum(available, n - 1, f);
        assert(f(n - 1) == one_if(available[n - 1] > 0));
    }
}

/// A keyword has papers available exactly where it has found any.
pub proof fn lemma_available_where_found(buckets: Seq<Bucket>, date: Seq<char>, w: int)
    requires
        0 <= w < buckets.len() <= usize::MAX,
        collected(buckets, buckets.len() as int, date).len() <= usize::MAX,
    ensures
        ({
            let n = buckets.len() as int;
            let available = availability(collected(buckets, n, date), buckets.len());
            available[w] > 0 <==> buckets[w].papers@.len() > 0
        }),
{
    let n = buckets.len() as int;
    let cands = collected(buckets, n, date);
    let found = |w: int, id: Seq<char>| finds(buckets, w, id);
    lemma_gathered(buckets, n, date);
    lemma_found_by(cands, w as usize, cands.len() as int);
    let papers = papers_view(buckets[w].papers@);
    if buckets[w].papers@.len() > 0 {
        let id = papers[0].id;
        assert(among(papers, buckets[w].papers@.len() as int, id));
        assert(finds(buckets, w, id));
        assert(is_candidate(cands, id));
        let c = choose|c: int| 0 <= c < cands.len() && (#[trigger] cands[c]).paper.id == id;
        assert(matches_keyword(cands[c].matches, w as usize) == found(w, id));
    } else if exists|c: int|
        0 <= c < cands.len() && #[trigger] matches_keyword(cands[c].matches, w as usize) {
        let c = choose|c: int|
            0 <= c < cands.len() && #[trigger] matches_keyword(cands[c].matches, w as usize);
        assert(found_are(cands[c], n, found));
        assert(matches_keyword(cands[c].matches, w as usize) == found(w, cands[c].paper.id));
    }
}

proof fn lemma_found_by(cands: Seq<CandidateView>, w: usize, n: int)
    requires
        0 <= n <= cands.len(),
    ensures
        found_by(cands, w, n) <= n,
        found_by(cands, w, n) > 0 <==> exists|c: int|
            0 <= c < n && #[trigger] matches_keyword(cands[c].matches, w),
    decreases n,
{
    if n > 0 {
        lemma_found_by(cands, w, n - 1);
    }
}

} // verus!
