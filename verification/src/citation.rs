//! BibTeX records of papers: where they are asked for, and one made from what is
//! known.

use crate::chars::{alphanumeric, digit, is_alphanumeric, is_digit, is_whitespace, whitespace};
use crate::strings::{
    concat, contains_text, find_from, is_blank, lower, occurs, occurs_at, opt_text, starts_with,
    to_lower, trim, trim_end, trim_start, trimmed,
};
use crate::text::{from_range, to_chars};
use vstd::prelude::*;

verus! {

/// What a citation is made from.
#[derive(Debug)]
pub struct CitationMetadata {
    pub title: String,
    pub authors: String,
    pub doi: Option<String>,
    pub arxiv_id: Option<String>,
    pub year: Option<String>,
    pub journal_ref: Option<String>,
}

/// Position of `p` in `s` from position `i` on, or -1.
pub open spec fn find_at(s: Seq<char>, p: Seq<char>, i: int) -> int
    decreases s.len() + 1 - i,
{
    if i > s.len() {
        -1
    } else if occurs_at(s, p, i) {
        i
    } else {
        find_at(s, p, i + 1)
    }
}

proof fn lemma_find_at(s: Seq<char>, p: Seq<char>, i: int, k: int)
    requires
        0 <= i <= k,
        forall|j: int| i <= j < k ==> !occurs_at(s, p, j),
    ensures
        k <= s.len() ==> find_at(s, p, i) == find_at(s, p, k),
        k > s.len() ==> find_at(s, p, i) == -1,
    decreases k - i,
{
    if i < k {
        lemma_find_at(s, p, i + 1, k);
        assert(!occurs_at(s, p, i));
        if i > s.len() {
            assert(find_at(s, p, i) == -1);
        }
    }
}

pub(crate) fn find(s: &Vec<char>, p: &Vec<char>) -> (r: Option<usize>)
    ensures
        match r {
            Some(i) => find_at(s@, p@, 0) == i && occurs_at(s@, p@, i as int),
            None => find_at(s@, p@, 0) == -1,
        },
{
    let r = find_from(s, p, 0);
    proof {
        match r {
            Some(i) => lemma_find_at(s@, p@, 0, i as int),
            None => lemma_find_at(s@, p@, 0, s@.len() as int + 1),
        }
    }
    r
}

/// What stands behind the last of the separators `p` that divide `s`.
pub open spec fn last_piece(s: Seq<char>, p: Seq<char>) -> Seq<char>
    decreases s.len(),
{
    let i = find_at(s, p, 0);
    if i < 0 || p.len() == 0 || i + p.len() > s.len() {
        s
    } else {
        last_piece(s.skip(i + p.len()), p)
    }
}

/// What stands before the first of the separators `p` that divide `s`.
pub open spec fn first_piece(s: Seq<char>, p: Seq<char>) -> Seq<char> {
    let i = find_at(s, p, 0);
    if i < 0 {
        s
    } else {
        s.take(i)
    }
}

fn piece_before(s: &Vec<char>, p: &str) -> (r: String)
    ensures
        r@ == first_piece(s@, p@),
{
    let pat = to_chars(p);
    match find(s, &pat) {
        Some(i) => {
            assert(s@.subrange(0, i as int) =~= s@.take(i as int));
            from_range(s, 0, i)
        },
        None => {
            assert(s@.subrange(0, s@.len() as int) =~= s@);
            from_range(s, 0, s.len())
        },
    }
}

fn piece_behind(s: &Vec<char>, p: &Vec<char>) -> (r: Vec<char>)
    requires
        p@.len() > 0,
    ensures
        r@ == last_piece(s@, p@),
    decreases s@.len(),
{
    let n: usize = s.len();
    match find(s, p) {
        Some(i) => {
            assert(i + p@.len() <= n);
            let from: usize = i + p.len();
            let rest = from_range(s, from, s.len());
            assert(s@.subrange(from as int, s@.len() as int) =~= s@.skip(from as int));
            let rest = to_chars(rest.as_str());
            piece_behind(&rest, p)
        },
        None => {
            assert(s@.subrange(0, s@.len() as int) =~= s@);
            to_chars(from_range(s, 0, s.len()).as_str())
        },
    }
}

/// Whether a text holds nothing but digits and dots.
pub open spec fn is_number(s: Seq<char>) -> bool {
    forall|i: int| 0 <= i < s.len() ==> digit(#[trigger] s[i]) || s[i] == '.'
}

/// The part of a reference to arXiv that may be an identifier.
pub open spec fn arxiv_part(s: Seq<char>) -> Seq<char> {
    let t = trimmed(s);
    let bare = if occurs_at(t, "http://arxiv.org/abs/"@, 0) || occurs_at(
        t,
        "https://arxiv.org/abs/"@,
        0,
    ) {
        last_piece(t, "/abs/"@)
    } else if occurs_at(t, "arxiv:"@, 0) {
        t.skip(6)
    } else {
        t
    };
    first_piece(bare, "v"@)
}

/// The identifier in a reference to arXiv, without its version.
pub open spec fn arxiv_number(s: Seq<char>) -> Option<Seq<char>> {
    if is_number(arxiv_part(s)) {
        Some(arxiv_part(s))
    } else {
        None
    }
}

fn only_number(s: &Vec<char>) -> (r: bool)
    ensures
        r == is_number(s@),
{
    let mut i: usize = 0;
    while i < s.len()
        invariant
            i <= s@.len(),
            forall|j: int| 0 <= j < i ==> digit(#[trigger] s@[j]) || s@[j] == '.',
        decreases s@.len() - i,
    {
        if !is_digit(s[i]) && s[i] != '.' {
            return false;
        }
        i = i + 1;
    }
    true
}

/// The identifier in a reference to arXiv, without its version.
pub fn extract_arxiv(s: &str) -> (r: Option<String>)
    ensures
        opt_text(r) == arxiv_number(s@),
{
    proof {
        reveal_strlit("arxiv:");
        reveal_strlit("/abs/");
    }
    let t = trim(s);
    let chars = to_chars(t.as_str());
    let bare: Vec<char> = if starts_with(t.as_str(), "http://arxiv.org/abs/") || starts_with(
        t.as_str(),
        "https://arxiv.org/abs/",
    ) {
        piece_behind(&chars, &to_chars("/abs/"))
    } else if starts_with(t.as_str(), "arxiv:") {
        assert(chars@.subrange(6, chars@.len() as int) =~= chars@.skip(6));
        to_chars(from_range(&chars, 6, chars.len()).as_str())
    } else {
        chars
    };
    let part = piece_before(&bare, "v");
    if only_number(&to_chars(part.as_str())) {
        Some(part)
    } else {
        None
    }
}

/// The part of a reference that may be a DOI.
pub open spec fn doi_part(s: Seq<char>) -> Seq<char> {
    let t = trimmed(s);
    let a = find_at(t, "doi.org/"@, 0);
    let b = find_at(t, "doi:"@, 0);
    if a >= 0 {
        t.skip(a + 8)
    } else if b >= 0 {
        t.skip(b + 4)
    } else {
        t
    }
}

/// The DOI in a reference.
pub open spec fn doi_number(s: Seq<char>) -> Option<Seq<char>> {
    if occurs_at(doi_part(s), "10."@, 0) {
        Some(doi_part(s))
    } else {
        None
    }
}

fn text_from(s: &Vec<char>, k: usize) -> (r: String)
    requires
        k <= s@.len(),
    ensures
        r@ == s@.skip(k as int),
{
    assert(s@.subrange(k as int, s@.len() as int) =~= s@.skip(k as int));
    from_range(s, k, s.len())
}

/// The DOI in a reference.
pub fn extract_doi(s: &str) -> (r: Option<String>)
    ensures
        opt_text(r) == doi_number(s@),
{
    proof {
        reveal_strlit("doi.org/");
        reveal_strlit("doi:");
    }
    let t = trim(s);
    let chars = to_chars(t.as_str());
    let n: usize = chars.len();
    let part = match find(&chars, &to_chars("doi.org/")) {
        Some(i) => {
            assert(i + 8 <= n);
            text_from(&chars, i + 8)
        },
        None => match find(&chars, &to_chars("doi:")) {
            Some(i) => {
                assert(i + 4 <= n);
                text_from(&chars, i + 4)
            },
            None => t,
        },
    };
    if starts_with(part.as_str(), "10.") {
        Some(part)
    } else {
        None
    }
}

/// The next white space from `k` on, or the end.
pub open spec fn space_from(s: Seq<char>, k: int) -> int
    decreases s.len() - k,
{
    if 0 <= k < s.len() && !whitespace(s[k]) {
        space_from(s, k + 1)
    } else {
        k
    }
}

/// Start of the run without white space that ends at `k`.
pub open spec fn word_start(s: Seq<char>, k: int) -> int
    decreases k,
{
    if 0 < k <= s.len() && !whitespace(s[k - 1]) {
        word_start(s, k - 1)
    } else {
        k
    }
}

/// The first word of a text, or nothing where it has none.
pub open spec fn first_word(s: Seq<char>) -> Seq<char> {
    let t = trim_start(s);
    t.take(space_from(t, 0))
}

/// The last word of a text, or the text itself where it has none.
pub open spec fn last_word(s: Seq<char>) -> Seq<char> {
    let t = trim_end(s);
    if t.len() == 0 {
        s
    } else {
        t.skip(word_start(t, t.len() as int))
    }
}

/// The letters and digits among the first `n` characters of `s`.
pub open spec fn letters(s: Seq<char>, n: int) -> Seq<char>
    decreases n,
{
    if n <= 0 {
        Seq::empty()
    } else if alphanumeric(s[n - 1]) {
        letters(s, n - 1).push(s[n - 1])
    } else {
        letters(s, n - 1)
    }
}

/// A word as it stands in a citation key.
pub open spec fn key_part(word: Seq<char>) -> Seq<char> {
    letters(lower(word), lower(word).len() as int)
}

/// A citation key made from the first author, the year and the title.
pub open spec fn generated_key(m: CitationMetadata) -> Seq<char> {
    let year = match m.year {
        Some(y) => y@,
        None => Seq::empty(),
    };
    let key = key_part(last_word(first_piece(m.authors@, " and "@))) + year + key_part(
        first_word(m.title@),
    );
    if key.len() == 0 {
        "citation"@
    } else {
        key
    }
}

fn key_word(word: &str) -> (r: String)
    ensures
        r@ == key_part(word@),
{
    let low = to_lower(word);
    let s = to_chars(low.as_str());
    let mut out: Vec<char> = Vec::new();
    let mut i: usize = 0;
    while i < s.len()
        invariant
            i <= s@.len(),
            out@ == letters(s@, i as int),
        decreases s@.len() - i,
    {
        if is_alphanumeric(s[i]) {
            out.push(s[i]);
        }
        i = i + 1;
    }
    crate::text::from_chars(&out)
}

fn take_first_word(text: &str) -> (r: String)
    ensures
        r@ == first_word(text@),
{
    let s = to_chars(text);
    let n: usize = s.len();
    let mut k: usize = 0;
    assert(s@.skip(0) =~= s@);
    while k < n && is_whitespace(s[k])
        invariant
            k <= n == s@.len(),
            trim_start(s@) == trim_start(s@.skip(k as int)),
        decreases n - k,
    {
        assert(s@.skip(k as int).drop_first() =~= s@.skip(k + 1));
        k = k + 1;
    }
    let ghost t = s@.skip(k as int);
    let mut e: usize = k;
    while e < n && !is_whitespace(s[e])
        invariant
            k <= e <= n == s@.len(),
            t == s@.skip(k as int),
            space_from(t, 0) == space_from(t, e - k),
        decreases n - e,
    {
        assert(t[e - k] == s@[e as int]);
        e = e + 1;
    }
    assert(s@.subrange(k as int, e as int) =~= t.take(e - k));
    from_range(&s, k, e)
}

fn take_last_word(text: &str) -> (r: String)
    ensures
        r@ == last_word(text@),
{
    let s = to_chars(text);
    let mut n: usize = s.len();
    assert(s@.take(n as int) =~= s@);
    while n > 0 && is_whitespace(s[n - 1])
        invariant
            n <= s@.len(),
            trim_end(s@) == trim_end(s@.take(n as int)),
        decreases n,
    {
        assert(s@.take(n as int).drop_last() =~= s@.take(n - 1));
        n = n - 1;
    }
    let ghost t = s@.take(n as int);
    if n == 0 {
        return text.to_owned();
    }
    let mut b: usize = n;
    while b > 0 && !is_whitespace(s[b - 1])
        invariant
            b <= n <= s@.len(),
            t == s@.take(n as int),
            word_start(t, n as int) == word_start(t, b as int),
        decreases b,
    {
        assert(t[b - 1] == s@[b - 1]);
        b = b - 1;
    }
    assert(b > 0 ==> t[b - 1] == s@[b - 1]);
    assert(s@.subrange(b as int, n as int) =~= t.skip(b as int));
    from_range(&s, b, n)
}

/// A citation key made from the first author, the year and the title.
pub fn best_effort_key(metadata: &CitationMetadata) -> (r: String)
    ensures
        r@ == generated_key(*metadata),
{
    let author = piece_before(&to_chars(metadata.authors.as_str()), " and ");
    let name = take_last_word(author.as_str());
    let mut key = key_word(name.as_str());
    match &metadata.year {
        Some(year) => {
            key = concat(key.as_str(), year.as_str());
        },
        None => {
            assert(key@ + Seq::<char>::empty() =~= key@);
        },
    }
    let word = key_word(take_first_word(metadata.title.as_str()).as_str());
    key = concat(key.as_str(), word.as_str());
    if key.as_str().is_empty() {
        "citation".to_owned()
    } else {
        key
    }
}

/// One line of a record.
pub open spec fn field_line(name: Seq<char>, value: Seq<char>) -> Seq<char> {
    "  "@ + name + "={"@ + value + "},\n"@
}

/// A line for a value that is there and not empty.
pub open spec fn opt_line(name: Seq<char>, value: Option<Seq<char>>) -> Seq<char> {
    match value {
        Some(v) => if v.len() > 0 {
            field_line(name, v)
        } else {
            Seq::empty()
        },
        None => Seq::empty(),
    }
}

/// The line for the journal: the one that is known, or else arXiv.
pub open spec fn journal_line(m: CitationMetadata) -> Seq<char> {
    if m.journal_ref matches Some(j) && j@.len() > 0 {
        field_line("journal"@, m.journal_ref->0@)
    } else {
        match m.arxiv_id {
            Some(id) => match arxiv_number(id@) {
                Some(number) => field_line("journal"@, "arXiv preprint arXiv:"@ + number),
                None => Seq::empty(),
            },
            None => Seq::empty(),
        }
    }
}

/// The line for the DOI.
pub open spec fn doi_line(m: CitationMetadata) -> Seq<char> {
    match m.doi {
        Some(doi) => match doi_number(doi@) {
            Some(number) => field_line("doi"@, number),
            None => Seq::empty(),
        },
        None => Seq::empty(),
    }
}

/// A record made from what is known.
pub open spec fn generated_record(m: CitationMetadata) -> Seq<char> {
    "@article{"@ + generated_key(m) + ",\n"@ + field_line("title"@, m.title@) + opt_line(
        "author"@,
        Some(m.authors@),
    ) + opt_line("year"@, opt_text(m.year)) + journal_line(m) + doi_line(m) + "}\n"@
}

fn write_field(record: &str, name: &str, value: &str) -> (r: String)
    ensures
        r@ == record@ + field_line(name@, value@),
{
    let a = concat(record, "  ");
    let b = concat(a.as_str(), name);
    let c = concat(b.as_str(), "={");
    let d = concat(c.as_str(), value);
    let e = concat(d.as_str(), "},\n");
    assert(e@ =~= record@ + field_line(name@, value@));
    e
}

/// A record made from what is known, and its key.
pub fn generate_bibtex(metadata: &CitationMetadata) -> (r: (String, String))
    ensures
        r.0@ == generated_key(*metadata),
        r.1@ == generated_record(*metadata),
{
    let key = best_effort_key(metadata);
    let a = concat("@article{", key.as_str());
    let b = concat(a.as_str(), ",\n");
    let mut record = write_field(b.as_str(), "title", metadata.title.as_str());
    let ghost head = record@;
    if !metadata.authors.as_str().is_empty() {
        record = write_field(record.as_str(), "author", metadata.authors.as_str());
    }
    assert(record@ =~= head + opt_line("author"@, Some(metadata.authors@)));
    let ghost head = record@;
    match &metadata.year {
        Some(year) => {
            if !year.as_str().is_empty() {
                record = write_field(record.as_str(), "year", year.as_str());
            }
        },
        None => {},
    }
    assert(record@ =~= head + opt_line("year"@, opt_text(metadata.year)));
    let ghost head = record@;
    let journal: Option<String> = match &metadata.journal_ref {
        Some(j) => if j.as_str().is_empty() {
            None
        } else {
            Some(j.clone())
        },
        None => None,
    };
    match journal {
        Some(j) => {
            record = write_field(record.as_str(), "journal", j.as_str());
        },
        None => match &metadata.arxiv_id {
            Some(id) => match extract_arxiv(id.as_str()) {
                Some(number) => {
                    let name = concat("arXiv preprint arXiv:", number.as_str());
                    record = write_field(record.as_str(), "journal", name.as_str());
                },
                None => {},
            },
            None => {},
        },
    }
    assert(record@ =~= head + journal_line(*metadata));
    let ghost head = record@;
    match &metadata.doi {
        Some(doi) => match extract_doi(doi.as_str()) {
            Some(number) => {
                record = write_field(record.as_str(), "doi", number.as_str());
            },
            None => {},
        },
        None => {},
    }
    assert(record@ =~= head + doi_line(*metadata));
    (key, concat(record.as_str(), "}\n"))
}

/// `s` without at signs at its start.
pub open spec fn without_ats(s: Seq<char>) -> Seq<char>
    decreases s.len(),
{
    if s.len() > 0 && s[0] == '@' {
        without_ats(s.drop_first())
    } else {
        s
    }
}

/// The key that a record carries: between its first brace and the comma behind it.
pub open spec fn record_key(record: Seq<char>) -> Option<Seq<char>> {
    let s = without_ats(trimmed(record));
    let i = find_at(s, "{"@, 0);
    if i < 0 {
        None
    } else {
        Some(trimmed(first_piece(s.skip(i + 1), ","@)))
    }
}

/// The key that a record carries, or else one made from what is known.
pub fn key_of_record(record: &str, metadata: &CitationMetadata) -> (r: String)
    ensures
        r@ == (match record_key(record@) {
            Some(key) => key,
            None => generated_key(*metadata),
        }),
{
    proof {
        reveal_strlit("{");
    }
    let t = trim(record);
    let s = to_chars(t.as_str());
    let n: usize = s.len();
    let mut k: usize = 0;
    assert(s@.skip(0) =~= s@);
    while k < n && s[k] == '@'
        invariant
            k <= n == s@.len(),
            without_ats(s@) == without_ats(s@.skip(k as int)),
        decreases n - k,
    {
        assert(s@.skip(k as int).drop_first() =~= s@.skip(k + 1));
        k = k + 1;
    }
    assert(k < n ==> s@.skip(k as int)[0] == s@[k as int]);
    let bare = to_chars(text_from(&s, k).as_str());
    match find(&bare, &to_chars("{")) {
        Some(i) => {
            let rest = to_chars(text_from(&bare, i + 1).as_str());
            trim(piece_before(&rest, ",").as_str())
        },
        None => best_effort_key(metadata),
    }
}

/// What the search for a record asks next, or what it has found.
#[derive(Debug)]
pub enum CitationStep {
    /// Ask the address for a BibTeX record, by content negotiation.
    Doi { url: String },
    /// Ask the address for a BibTeX record.
    Arxiv { url: String },
    Done { key: String, bibtex: String },
}

/// A [`CitationStep`] by its texts.
pub enum StepView {
    Doi { url: Seq<char> },
    Arxiv { url: Seq<char> },
    Done { key: Seq<char>, bibtex: Seq<char> },
}

impl View for CitationStep {
    type V = StepView;

    open spec fn view(&self) -> StepView {
        match self {
            CitationStep::Doi { url } => StepView::Doi { url: url@ },
            CitationStep::Arxiv { url } => StepView::Arxiv { url: url@ },
            CitationStep::Done { key, bibtex } => StepView::Done { key: key@, bibtex: bibtex@ },
        }
    }
}

/// The record that is made where nobody has one.
pub open spec fn generated_step(m: CitationMetadata) -> StepView {
    StepView::Done { key: generated_key(m), bibtex: generated_record(m) }
}

/// What is asked when the DOI has given nothing.
pub open spec fn arxiv_step(m: CitationMetadata) -> StepView {
    match m.arxiv_id {
        Some(id) => match arxiv_number(id@) {
            Some(number) => StepView::Arxiv { url: "https://arxiv.org/bibtex/"@ + number },
            None => generated_step(m),
        },
        None => generated_step(m),
    }
}

/// What is asked first.
pub open spec fn doi_step(m: CitationMetadata) -> StepView {
    match m.doi {
        Some(doi) => match doi_number(doi@) {
            Some(number) => StepView::Doi { url: "https://doi.org/"@ + number },
            None => arxiv_step(m),
        },
        None => arxiv_step(m),
    }
}

/// What an answer gives: its record unless it is blank.
pub open spec fn answered_step(m: CitationMetadata, body: Option<Seq<char>>) -> Option<StepView> {
    match body {
        Some(record) => if trimmed(record).len() > 0 {
            Some(
                StepView::Done {
                    key: match record_key(record) {
                        Some(key) => key,
                        None => generated_key(m),
                    },
                    bibtex: record,
                },
            )
        } else {
            None
        },
        None => None,
    }
}

fn generate_step(metadata: &CitationMetadata) -> (r: CitationStep)
    ensures
        r@ == generated_step(*metadata),
{
    let (key, bibtex) = generate_bibtex(metadata);
    CitationStep::Done { key, bibtex }
}

fn ask_arxiv(metadata: &CitationMetadata) -> (r: CitationStep)
    ensures
        r@ == arxiv_step(*metadata),
{
    match &metadata.arxiv_id {
        Some(id) => match extract_arxiv(id.as_str()) {
            Some(number) => CitationStep::Arxiv {
                url: concat("https://arxiv.org/bibtex/", number.as_str()),
            },
            None => generate_step(metadata),
        },
        None => generate_step(metadata),
    }
}

/// Where the record of a paper is asked for first: under its DOI, else at arXiv.
/// Without either, it is made from what is known.
pub fn fetch_bibtex(metadata: &CitationMetadata) -> (r: CitationStep)
    ensures
        r@ == doi_step(*metadata),
        r is Doi <==> (metadata.doi is Some && doi_number(metadata.doi->0@) is Some),
        r is Arxiv <==> (r !is Doi && metadata.arxiv_id is Some && arxiv_number(
            metadata.arxiv_id->0@,
        ) is Some),
{
    match &metadata.doi {
        Some(doi) => match extract_doi(doi.as_str()) {
            Some(number) => CitationStep::Doi { url: concat("https://doi.org/", number.as_str()) },
            None => ask_arxiv(metadata),
        },
        None => ask_arxiv(metadata),
    }
}

/// What follows the answer for a DOI: its record, or the next place to ask. A
/// missing body stands for every kind of failure.
pub fn doi_answered(metadata: &CitationMetadata, body: Option<String>) -> (r: CitationStep)
    ensures
        r@ == (match answered_step(*metadata, opt_text(body)) {
            Some(step) => step,
            None => arxiv_step(*metadata),
        }),
{
    match body {
        Some(record) => {
            if is_blank(record.as_str()) {
                ask_arxiv(metadata)
            } else {
                CitationStep::Done {
                    key: key_of_record(record.as_str(), metadata),
                    bibtex: record,
                }
            }
        },
        None => ask_arxiv(metadata),
    }
}

/// What follows the answer of arXiv: its record, or one made from what is known.
pub fn arxiv_record_answered(metadata: &CitationMetadata, body: Option<String>) -> (r: CitationStep)
    ensures
        r@ == (match answered_step(*metadata, opt_text(body)) {
            Some(step) => step,
            None => generated_step(*metadata),
        }),
        r is Done,
{
    match body {
        Some(record) => {
            if is_blank(record.as_str()) {
                generate_step(metadata)
            } else {
                CitationStep::Done {
                    key: key_of_record(record.as_str(), metadata),
                    bibtex: record,
                }
            }
        },
        None => generate_step(metadata),
    }
}

/// Where a record seems to come from.
pub open spec fn source_label(record: Seq<char>) -> Seq<char> {
    let t = trimmed(record);
    if occurs(t, "doi.org"@) || occurs(t, "doi ="@) {
        "(DOI)"@
    } else if occurs(t, "arXiv"@) || occurs(t, "arxiv"@) {
        "(arXiv)"@
    } else {
        "(Generated)"@
    }
}

/// What the user is told when a record has been put on the clipboard, or could
/// not be.
pub fn fetch_and_copy_citation(bibtex: &str, copied: bool) -> (r: String)
    ensures
        r@ == (if copied {
            "Citation copied to clipboard "@ + source_label(bibtex@)
        } else {
            "Failed to write to clipboard"@
        }),
{
    if !copied {
        return "Failed to write to clipboard".to_owned();
    }
    let t = trim(bibtex);
    let s: &str = t.as_str();
    let source: &str = if contains_text(s, "doi.org") || contains_text(s, "doi =") {
        "(DOI)"
    } else if contains_text(s, "arXiv") || contains_text(s, "arxiv") {
        "(arXiv)"
    } else {
        "(Generated)"
    };
    concat("Citation copied to clipboard ", source)
}

// ---------------------------------------------------------------------------
// What holds of all records
// ---------------------------------------------------------------------------

/// A record is asked for under the DOI where one can be read; else at arXiv, where an
/// identifier of arXiv can be read, whether there is no DOI or one that cannot be read;
/// and it is made up only where neither can.
pub proof fn lemma_who_is_asked(m: CitationMetadata)
    ensures
        ({
            let doi = match m.doi {
                Some(d) => doi_number(d@),
                None => None,
            };
            let arxiv = match m.arxiv_id {
                Some(a) => arxiv_number(a@),
                None => None,
            };
            &&& doi matches Some(n) ==> doi_step(m) == (StepView::Doi {
                url: "https://doi.org/"@ + n,
            })
            &&& doi is None ==> (arxiv matches Some(n) ==> doi_step(m) == (StepView::Arxiv {
                url: "https://arxiv.org/bibtex/"@ + n,
            }))
            &&& doi_step(m) is Done <==> doi is None && arxiv is None
            &&& arxiv matches Some(n) ==> arxiv_step(m) == (StepView::Arxiv {
                url: "https://arxiv.org/bibtex/"@ + n,
            })
            &&& arxiv_step(m) is Done <==> arxiv is None
        }),
{
}

/// An answer is taken as it is, unless it is missing or nothing but white space: then
/// the next place is asked. A lookup never ends without a record, and never asks a DOI
/// a second time.
pub proof fn lemma_answers_are_taken(m: CitationMetadata, body: Option<Seq<char>>)
    ensures
        ({
            let useful = body is Some && exists|i: int|
                0 <= i < body->0.len() && !whitespace(#[trigger] body->0[i]);
            &&& answered_step(m, body) is Some <==> useful
            &&& useful ==> (answered_step(m, body) matches Some(StepView::Done { key, bibtex })
                && bibtex == body->0)
            &&& arxiv_step(m) !is Doi
        }),
{
    if body is Some {
        crate::strings::lemma_blank(body->0);
    }
}

pub(crate) proof fn lemma_find_first(s: Seq<char>, p: Seq<char>, k: int)
    requires
        occurs_at(s, p, k),
        forall|j: int| 0 <= j < k ==> !occurs_at(s, p, j),
    ensures
        find_at(s, p, 0) == k,
{
    lemma_find_at(s, p, 0, k);
}

pub(crate) proof fn lemma_find_none(s: Seq<char>, p: Seq<char>)
    requires
        forall|j: int| !occurs_at(s, p, j),
    ensures
        find_at(s, p, 0) == -1,
{
    lemma_find_at(s, p, 0, s.len() as int + 1);
}

/// No text with a character that the other lacks stands in it.
pub(crate) proof fn lemma_absent(s: Seq<char>, p: Seq<char>, i: int)
    requires
        0 <= i < p.len(),
        forall|k: int| 0 <= k < s.len() ==> #[trigger] s[k] != p[i],
    ensures
        forall|j: int| !occurs_at(s, p, j),
{
    assert forall|j: int| !occurs_at(s, p, j) by {
        if occurs_at(s, p, j) {
            assert(s.subrange(j, j + p.len())[i] == s[j + i]);
        }
    }
}

/// What is read of a bare identifier of arXiv: digits and dots, up to a version.
proof fn lemma_number_before_version(n: Seq<char>, tail: Seq<char>)
    requires
        forall|i: int| 0 <= i < n.len() ==> ('0' <= #[trigger] n[i] <= '9') || n[i] == '.',
        tail.len() > 0 ==> tail[0] == 'v',
    ensures
        first_piece(n + tail, "v"@) == n,
        is_number(n),
{
    reveal_strlit("v");
    let s = n + tail;
    let v = "v"@;
    if tail.len() == 0 {
        lemma_absent(s, v, 0);
        lemma_find_none(s, v);
        assert(s =~= n);
    } else {
        assert(s.subrange(n.len() as int, n.len() as int + 1) =~= v);
        assert forall|j: int| 0 <= j < n.len() implies !occurs_at(s, v, j) by {
            if occurs_at(s, v, j) {
                assert(s.subrange(j, j + 1)[0] == s[j]);
                assert(s[j] == n[j]);
            }
        }
        lemma_find_first(s, v, n.len() as int);
        assert(s.take(n.len() as int) =~= n);
    }
}

/// An identifier of arXiv is read from itself, from its short form and from its
/// address, with or without a version, and whatever white space stands around it.
pub proof fn lemma_arxiv_identifier_is_read(
    lead: Seq<char>,
    n: Seq<char>,
    version: Seq<char>,
    trail: Seq<char>,
)
    requires
        forall|i: int| 0 <= i < n.len() ==> ('0' <= #[trigger] n[i] <= '9') || n[i] == '.',
        n.len() > 0,
        version.len() > 0 ==> version[0] == 'v',
        forall|i: int| 0 <= i < version.len() ==> #[trigger] version[i] != '/' && !whitespace(
            version[i],
        ),
        forall|i: int| 0 <= i < lead.len() ==> whitespace(#[trigger] lead[i]),
        forall|i: int| 0 <= i < trail.len() ==> whitespace(#[trigger] trail[i]),
    ensures
        arxiv_number(lead + (n + version) + trail) == Some(n),
        arxiv_number(lead + ("arxiv:"@ + (n + version)) + trail) == Some(n),
        arxiv_number(lead + ("http://arxiv.org/abs/"@ + (n + version)) + trail) == Some(n),
        arxiv_number(lead + ("https://arxiv.org/abs/"@ + (n + version)) + trail) == Some(n),
{
    reveal_strlit("arxiv:");
    reveal_strlit("http://arxiv.org/abs/");
    reveal_strlit("https://arxiv.org/abs/");
    reveal_strlit("/abs/");
    let t = n + version;
    assert(!whitespace(t.last()) && !whitespace(t[0])) by {
        assert(t[0] == n[0]);
        if version.len() > 0 {
            assert(t.last() == version.last());
        } else {
            assert(t.last() == n.last());
        }
    }
    lemma_number_before_version(n, version);
    lemma_no_prefix(t);
    lemma_trim_around(lead, t, trail);
    let a = "arxiv:"@ + t;
    assert(a[0] == 'a' && a.last() == t.last());
    lemma_trim_around(lead, a, trail);
    assert(occurs_at(a, "arxiv:"@, 0)) by {
        assert(a.subrange(0, 6) =~= "arxiv:"@);
    }
    assert(a.skip(6) =~= t);
    assert(!occurs_at(a, "http://arxiv.org/abs/"@, 0)) by {
        if occurs_at(a, "http://arxiv.org/abs/"@, 0) {
            assert(a.subrange(0, 21)[0] == a[0]);
        }
    }
    assert(!occurs_at(a, "https://arxiv.org/abs/"@, 0)) by {
        if occurs_at(a, "https://arxiv.org/abs/"@, 0) {
            assert(a.subrange(0, 22)[0] == a[0]);
        }
    }
    lemma_address_read("http://arxiv.org/abs/"@, t);
    lemma_address_read("https://arxiv.org/abs/"@, t);
    let h = "http://arxiv.org/abs/"@ + t;
    assert(h[0] == 'h' && h.last() == t.last());
    lemma_trim_around(lead, h, trail);
    assert(h.subrange(0, 21) =~= "http://arxiv.org/abs/"@);
    assert(occurs_at(h, "http://arxiv.org/abs/"@, 0));
    let g = "https://arxiv.org/abs/"@ + t;
    assert(g[0] == 'h' && g.last() == t.last());
    lemma_trim_around(lead, g, trail);
    assert(g.subrange(0, 22) =~= "https://arxiv.org/abs/"@);
    assert(occurs_at(g, "https://arxiv.org/abs/"@, 0));
}

proof fn lemma_trim_around(lead: Seq<char>, t: Seq<char>, trail: Seq<char>)
    requires
        t.len() > 0,
        !whitespace(t[0]),
        !whitespace(t.last()),
        forall|i: int| 0 <= i < lead.len() ==> whitespace(#[trigger] lead[i]),
        forall|i: int| 0 <= i < trail.len() ==> whitespace(#[trigger] trail[i]),
    ensures
        trimmed(lead + t + trail) == t,
{
    let s = lead + t + trail;
    let (a, b) = crate::strings::lemma_trimmed_between(s);
    let x = lead.len() as int;
    let y = x + t.len();
    assert(s[x] == t[0]);
    assert(s[y - 1] == t.last());
    if a < x {
        assert(s[a] == lead[a]);
    }
    if b > y {
        assert(s[b - 1] == trail[b - 1 - y]);
    }
    assert(a <= x && y <= b);
    assert(s.subrange(x, y) =~= t);
}

proof fn lemma_no_prefix(t: Seq<char>)
    requires
        t.len() > 0,
        t[0] != 'h' && t[0] != 'a',
    ensures
        !occurs_at(t, "http://arxiv.org/abs/"@, 0),
        !occurs_at(t, "https://arxiv.org/abs/"@, 0),
        !occurs_at(t, "arxiv:"@, 0),
{
    reveal_strlit("arxiv:");
    reveal_strlit("http://arxiv.org/abs/");
    reveal_strlit("https://arxiv.org/abs/");
    if occurs_at(t, "http://arxiv.org/abs/"@, 0) {
        assert(t.subrange(0, 21)[0] == t[0]);
    }
    if occurs_at(t, "https://arxiv.org/abs/"@, 0) {
        assert(t.subrange(0, 22)[0] == t[0]);
    }
    if occurs_at(t, "arxiv:"@, 0) {
        assert(t.subrange(0, 6)[0] == t[0]);
    }
}

proof fn lemma_address_read(address: Seq<char>, t: Seq<char>)
    requires
        address == "http://arxiv.org/abs/"@ || address == "https://arxiv.org/abs/"@,
        forall|i: int| 0 <= i < t.len() ==> #[trigger] t[i] != '/',
    ensures
        last_piece(address + t, "/abs/"@) == t,
{
    reveal_strlit("http://arxiv.org/abs/");
    reveal_strlit("https://arxiv.org/abs/");
    reveal_strlit("/abs/");
    let s = address + t;
    let p = "/abs/"@;
    let k = address.len() - 5;
    assert(s.subrange(k, k + 5) =~= p);
    assert forall|j: int| 0 <= j < k implies !occurs_at(s, p, j) by {
        if occurs_at(s, p, j) {
            assert(s.subrange(j, j + 5)[0] == s[j]);
            assert(s.subrange(j, j + 5)[1] == s[j + 1]);
            assert(s.subrange(j, j + 5)[2] == s[j + 2]);
            assert(s[j] == address[j] && s[j + 1] == address[j + 1] && s[j + 2] == address[j + 2]);
        }
    }
    lemma_find_first(s, p, k);
    assert(s.skip(k + 5) =~= t);
    lemma_absent(t, p, 0);
    lemma_find_none(t, p);
    assert(last_piece(t, p) == t);
}

/// What is read as an identifier of arXiv holds nothing but digits and dots, and
/// stands in the text as it is.
pub proof fn lemma_arxiv_identifier_is_a_number(s: Seq<char>)
    ensures
        arxiv_number(s) matches Some(n) ==> {
            &&& forall|i: int| 0 <= i < n.len() ==> ('0' <= #[trigger] n[i] <= '9') || n[i] == '.'
            &&& exists|k: int| 0 <= k && #[trigger] s.subrange(k, k + n.len()) == n && k + n.len()
                <= s.len()
        },
{
    reveal_strlit("arxiv:");
    reveal_strlit("/abs/");
    if arxiv_number(s) is Some {
        let n = arxiv_number(s)->0;
        let (a, b) = crate::strings::lemma_trimmed_between(s);
        let t = trimmed(s);
        let i = if occurs_at(t, "http://arxiv.org/abs/"@, 0) || occurs_at(
            t,
            "https://arxiv.org/abs/"@,
            0,
        ) {
            lemma_last_piece(t, "/abs/"@)
        } else if occurs_at(t, "arxiv:"@, 0) {
            6
        } else {
            0
        };
        let bare = t.skip(i);
        if i == 0 {
            assert(t.skip(0) =~= t);
        }
        lemma_find_range(bare, "v"@, 0);
        assert(n == bare.take(n.len() as int)) by {
            assert(bare.take(bare.len() as int) =~= bare);
        }
        assert(s.subrange(a + i, a + i + n.len()) =~= n);
    }
}

proof fn lemma_find_range(s: Seq<char>, p: Seq<char>, i: int)
    requires
        0 <= i,
    ensures
        find_at(s, p, i) == -1 || (i <= find_at(s, p, i) && occurs_at(s, p, find_at(s, p, i))),
        find_at(s, p, i) == -1 ==> forall|j: int| i <= j ==> !occurs_at(s, p, j),
        forall|j: int| i <= j < find_at(s, p, i) ==> !occurs_at(s, p, j),
    decreases s.len() + 1 - i,
{
    if i <= s.len() && !occurs_at(s, p, i) {
        lemma_find_range(s, p, i + 1);
    }
}

proof fn lemma_last_piece(s: Seq<char>, p: Seq<char>) -> (i: int)
    ensures
        0 <= i <= s.len(),
        last_piece(s, p) == s.skip(i),
    decreases s.len(),
{
    let k = find_at(s, p, 0);
    if k < 0 || p.len() == 0 || k + p.len() > s.len() {
        assert(s.skip(0) =~= s);
        0
    } else {
        let rest = s.skip(k + p.len());
        let i = lemma_last_piece(rest, p);
        assert(rest.skip(i) =~= s.skip(k + p.len() + i));
        k + p.len() + i
    }
}

/// A DOI is read from itself, from its short form and from any address of `doi.org`,
/// whatever white space stands around it.
pub proof fn lemma_doi_is_read(lead: Seq<char>, host: Seq<char>, d: Seq<char>, trail: Seq<char>)
    requires
        d.len() >= 3 && d[0] == '1' && d[1] == '0' && d[2] == '.',
        !whitespace(d.last()),
        forall|j: int| !occurs_at(d, "doi.org/"@, j),
        forall|j: int| !occurs_at(d, "doi:"@, j),
        host.len() > 0 ==> !whitespace(host[0]),
        forall|i: int| 0 <= i < host.len() ==> #[trigger] host[i] != 'o',
        forall|i: int| 0 <= i < lead.len() ==> whitespace(#[trigger] lead[i]),
        forall|i: int| 0 <= i < trail.len() ==> whitespace(#[trigger] trail[i]),
    ensures
        doi_number(lead + d + trail) == Some(d),
        doi_number(lead + ("doi:"@ + d) + trail) == Some(d),
        doi_number(lead + (host + "doi.org/"@ + d) + trail) == Some(d),
{
    reveal_strlit("doi.org/");
    reveal_strlit("doi:");
    reveal_strlit("10.");
    let o = "doi.org/"@;
    let c = "doi:"@;
    assert(d.subrange(0, 3) =~= "10."@);
    lemma_trim_around(lead, d, trail);
    lemma_find_none(d, o);
    lemma_find_none(d, c);
    let a = c + d;
    assert(a[0] == 'd' && a.last() == d.last());
    lemma_trim_around(lead, a, trail);
    assert forall|j: int| !occurs_at(a, o, j) by {
        if occurs_at(a, o, j) {
            let w = a.subrange(j, j + 8);
            assert(w[1] == a[j + 1] && w[3] == a[j + 3] && w[0] == a[j]);
            if j >= 4 {
                assert(d.subrange(j - 4, j + 4) =~= w);
                assert(occurs_at(d, o, j - 4));
            }
        }
    }
    lemma_find_none(a, o);
    assert(a.subrange(0, 4) =~= c);
    lemma_find_first(a, c, 0);
    assert(a.skip(4) =~= d);
    let h = host + o + d;
    let k = host.len() as int;
    assert(h.last() == d.last());
    assert(h[0] == if k > 0 {
        host[0]
    } else {
        'd'
    });
    lemma_trim_around(lead, h, trail);
    assert(h.subrange(k, k + 8) =~= o);
    assert forall|j: int| 0 <= j < k implies !occurs_at(h, o, j) by {
        if occurs_at(h, o, j) {
            let w = h.subrange(j, j + 8);
            assert(w[1] == h[j + 1] && w[0] == h[j] && w[4] == h[j + 4]);
            if j + 1 < k {
                assert(h[j + 1] == host[j + 1]);
            } else {
                assert(h[j + 1] == o[0]);
            }
        }
    }
    lemma_find_first(h, o, k);
    assert(h.skip(k + 8) =~= d);
}

/// What is read as a DOI starts like one, reaches to the end of the text but for white
/// space, and is the whole of it or stands behind a mark of DOIs.
pub proof fn lemma_doi_stands_in_the_text(s: Seq<char>)
    ensures
        doi_number(s) matches Some(d) ==> {
            &&& d.len() >= 3 && d[0] == '1' && d[1] == '0' && d[2] == '.'
            &&& exists|k: int|
                {
                    &&& 0 <= k <= k + d.len() <= s.len()
                    &&& #[trigger] s.subrange(k, k + d.len()) == d
                    &&& forall|i: int| k + d.len() <= i < s.len() ==> whitespace(#[trigger] s[i])
                    &&& ({
                        ||| forall|i: int| 0 <= i < k ==> whitespace(#[trigger] s[i])
                        ||| k >= 8 && s.subrange(k - 8, k) == "doi.org/"@
                        ||| k >= 4 && s.subrange(k - 4, k) == "doi:"@
                    })
                }
        },
{
    reveal_strlit("doi.org/");
    reveal_strlit("doi:");
    reveal_strlit("10.");
    if doi_number(s) is Some {
        let d = doi_number(s)->0;
        let (a, b) = crate::strings::lemma_trimmed_between(s);
        let t = trimmed(s);
        lemma_find_range(t, "doi.org/"@, 0);
        lemma_find_range(t, "doi:"@, 0);
        assert(d.subrange(0, 3)[0] == d[0] && d.subrange(0, 3)[1] == d[1] && d.subrange(0, 3)[2]
            == d[2]);
        let x = find_at(t, "doi.org/"@, 0);
        let y = find_at(t, "doi:"@, 0);
        let k = if x >= 0 {
            a + x + 8
        } else if y >= 0 {
            a + y + 4
        } else {
            a
        };
        assert(s.subrange(k, k + d.len()) =~= d);
        if x >= 0 {
            assert(s.subrange(k - 8, k) =~= t.subrange(x, x + 8));
        } else if y >= 0 {
            assert(s.subrange(k - 4, k) =~= t.subrange(y, y + 4));
        }
    }
}

/// A record that is made up holds what is known: its key, the title, and the authors,
/// the year, the journal and the DOI where they are there, each on a line of its own
/// and in this order. Without a journal the number at arXiv stands for it.
pub proof fn lemma_record_holds_what_is_known(m: CitationMetadata)
    ensures
        ({
            let line = |name: Seq<char>, value: Seq<char>|
                "  "@ + name + "={"@ + value + "},\n"@;
            let none = Seq::<char>::empty();
            let author = if m.authors@.len() > 0 {
                line("author"@, m.authors@)
            } else {
                none
            };
            let year = if m.year is Some && m.year->0@.len() > 0 {
                line("year"@, m.year->0@)
            } else {
                none
            };
            let journal = if m.journal_ref is Some && m.journal_ref->0@.len() > 0 {
                line("journal"@, m.journal_ref->0@)
            } else if m.arxiv_id is Some && arxiv_number(m.arxiv_id->0@) is Some {
                line("journal"@, "arXiv preprint arXiv:"@ + arxiv_number(m.arxiv_id->0@)->0)
            } else {
                none
            };
            let doi = if m.doi is Some && doi_number(m.doi->0@) is Some {
                line("doi"@, doi_number(m.doi->0@)->0)
            } else {
                none
            };
            generated_record(m) == "@article{"@ + generated_key(m) + ",\n"@ + line(
                "title"@,
                m.title@,
            ) + author + year + journal + doi + "}\n"@
        }),
{
}

/// The key of a record is read off it again: the key that a made up record is given is
/// the key that it carries.
pub proof fn lemma_key_is_read_off(m: CitationMetadata)
    requires
        !generated_key(m).contains(','),
    ensures
        record_key(generated_record(m)) == Some(trimmed(generated_key(m))),
{
    let rest = field_line("title"@, m.title@) + opt_line("author"@, Some(m.authors@)) + opt_line(
        "year"@,
        opt_text(m.year),
    ) + journal_line(m) + doi_line(m);
    lemma_key_of_record(generated_key(m), rest);
    assert(generated_record(m) =~= "@article{"@ + generated_key(m) + ",\n"@ + rest + "}\n"@);
}

proof fn lemma_key_of_record(key: Seq<char>, rest: Seq<char>)
    requires
        !key.contains(','),
    ensures
        record_key("@article{"@ + key + ",\n"@ + rest + "}\n"@) == Some(trimmed(key)),
{
    reveal_strlit("@article{");
    reveal_strlit(",\n");
    reveal_strlit("}\n");
    reveal_strlit("{");
    reveal_strlit(",");
    let record = "@article{"@ + key + ",\n"@ + rest + "}\n"@;
    let (a, b) = crate::strings::lemma_trimmed_between(record);
    let n = record.len() as int;
    assert(record[0] == '@');
    assert(record[n - 2] == '}' && record[n - 1] == '\n');
    assert(a == 0);
    assert(b == n - 1);
    let t = trimmed(record);
    assert(t[0] == '@' && t[1] == 'a');
    let s = t.drop_first();
    assert(s[0] == 'a');
    assert(without_ats(s) == s);
    assert(without_ats(t) == s);
    let brace = "{"@;
    assert(s.subrange(7, 8) =~= brace);
    assert forall|j: int| 0 <= j < 7 implies !occurs_at(s, brace, j) by {
        if occurs_at(s, brace, j) {
            assert(s.subrange(j, j + 1)[0] == s[j]);
            assert(s[j] == "@article{"@[j + 1]);
        }
    }
    lemma_find_first(s, brace, 7);
    let r = s.skip(8);
    assert(r =~= key + ",\n"@ + rest + "}"@) by {
        reveal_strlit("}");
    }
    let comma = ","@;
    let k = key.len() as int;
    assert(r.subrange(k, k + 1) =~= comma);
    assert forall|j: int| 0 <= j < k implies !occurs_at(r, comma, j) by {
        if occurs_at(r, comma, j) {
            assert(r.subrange(j, j + 1)[0] == r[j]);
            assert(r[j] == key[j]);
        }
    }
    lemma_find_first(r, comma, k);
    assert(r.take(k) =~= key);
}

proof fn lemma_letters(s: Seq<char>, n: int)
    requires
        0 <= n <= s.len(),
    ensures
        letters(s, n) == s.take(n).filter(|c: char| alphanumeric(c)),
    decreases n,
{
    reveal(Seq::filter);
    if n > 0 {
        lemma_letters(s, n - 1);
        assert(s.take(n).drop_last() =~= s.take(n - 1));
        assert(s.take(n).last() == s[n - 1]);
    } else {
        assert(s.take(0).len() == 0);
    }
}

pub(crate) proof fn lemma_space_from(s: Seq<char>, k: int, n: int)
    requires
        0 <= k <= n <= s.len(),
        forall|i: int| k <= i < n ==> !whitespace(#[trigger] s[i]),
        n < s.len() ==> whitespace(s[n]),
    ensures
        space_from(s, k) == n,
    decreases n - k,
{
    if k < n {
        lemma_space_from(s, k + 1, n);
    }
}

proof fn lemma_word_start(s: Seq<char>, b: int, k: int)
    requires
        0 <= b <= k <= s.len(),
        forall|i: int| b <= i < k ==> !whitespace(#[trigger] s[i]),
        b > 0 ==> whitespace(s[b - 1]),
    ensures
        word_start(s, k) == b,
    decreases k - b,
{
    if b < k {
        lemma_word_start(s, b, k - 1);
    }
}

/// The made up key: the last word of the first author's name, the year, and the first
/// word of the title, of each word the letters and digits in lower case.
pub proof fn lemma_key_names_author_year_and_title(
    m: CitationMetadata,
    given: Seq<char>,
    family: Seq<char>,
    others: Seq<char>,
    lead: Seq<char>,
    word: Seq<char>,
    more: Seq<char>,
)
    requires
        m.authors@ == given + family + others,
        family.len() > 0,
        forall|i: int| 0 <= i < family.len() ==> !whitespace(#[trigger] family[i]),
        given.len() > 0 ==> whitespace(given.last()),
        others.len() > 0 ==> occurs_at(others, " and "@, 0),
        forall|j: int| 0 <= j < given.len() + family.len() ==> !occurs_at(m.authors@, " and "@, j),
        m.title@ == lead + word + more,
        forall|i: int| 0 <= i < lead.len() ==> whitespace(#[trigger] lead[i]),
        word.len() > 0,
        forall|i: int| 0 <= i < word.len() ==> !whitespace(#[trigger] word[i]),
        more.len() > 0 ==> whitespace(more[0]),
    ensures
        ({
            let plain = |s: Seq<char>| lower(s).filter(|c: char| alphanumeric(c));
            let year = match m.year {
                Some(y) => y@,
                None => Seq::empty(),
            };
            let key = plain(family) + year + plain(word);
            generated_key(m) == if key.len() > 0 {
                key
            } else {
                "citation"@
            }
        }),
{
    reveal_strlit(" and ");
    let author = given + family;
    let sep = " and "@;
    let n = author.len() as int;
    assert(m.authors@ =~= author + others);
    if others.len() > 0 {
        assert(m.authors@.subrange(n, n + 5) =~= others.subrange(0, 5));
        lemma_find_first(m.authors@, sep, n);
        assert(m.authors@.take(n) =~= author);
    } else {
        assert(m.authors@ =~= author);
        assert forall|j: int| !occurs_at(m.authors@, sep, j) by {}
        lemma_find_none(m.authors@, sep);
    }
    assert(first_piece(m.authors@, sep) == author);
    assert(author.last() == family.last());
    assert(trim_end(author) == author);
    assert forall|i: int| given.len() <= i < n implies !whitespace(#[trigger] author[i]) by {
        assert(author[i] == family[i - given.len()]);
    }
    if given.len() > 0 {
        assert(author[given.len() - 1] == given.last());
    }
    lemma_word_start(author, given.len() as int, n);
    assert(author.skip(given.len() as int) =~= family);
    assert(last_word(author) == family);
    lemma_skip_space(lead, word + more);
    assert(lead + (word + more) =~= m.title@);
    let t = word + more;
    assert(trim_start(m.title@) == t);
    assert forall|i: int| 0 <= i < word.len() implies !whitespace(#[trigger] t[i]) by {
        assert(t[i] == word[i]);
    }
    if more.len() > 0 {
        assert(t[word.len() as int] == more[0]);
    }
    lemma_space_from(t, 0, word.len() as int);
    assert(t.take(word.len() as int) =~= word);
    lemma_letters(lower(family), lower(family).len() as int);
    lemma_letters(lower(word), lower(word).len() as int);
    assert(lower(family).take(lower(family).len() as int) =~= lower(family));
    assert(lower(word).take(lower(word).len() as int) =~= lower(word));
}

proof fn lemma_skip_space(lead: Seq<char>, t: Seq<char>)
    requires
        forall|i: int| 0 <= i < lead.len() ==> whitespace(#[trigger] lead[i]),
        t.len() > 0,
        !whitespace(t[0]),
    ensures
        trim_start(lead + t) == t,
    decreases lead.len(),
{
    let s = lead + t;
    if lead.len() > 0 {
        assert(s[0] == lead[0]);
        let rest = lead.drop_first();
        assert forall|i: int| 0 <= i < rest.len() implies whitespace(#[trigger] rest[i]) by {
            assert(rest[i] == lead[i + 1]);
        }
        lemma_skip_space(rest, t);
        assert(s.drop_first() =~= rest + t);
    } else {
        assert(s =~= t);
    }
}

/// Where a record is said to come from: a record of a DOI names `doi.org` or a DOI, one
/// of arXiv names arXiv and no DOI, and any other was made up.
pub proof fn lemma_source_is_told(record: Seq<char>)
    ensures
        ({
            let t = trimmed(record);
            let doi = (exists|i: int| occurs_at(t, "doi.org"@, i)) || (exists|i: int|
                occurs_at(t, "doi ="@, i));
            let arxiv = (exists|i: int| occurs_at(t, "arXiv"@, i)) || (exists|i: int|
                occurs_at(t, "arxiv"@, i));
            &&& doi ==> source_label(record) == "(DOI)"@
            &&& !doi && arxiv ==> source_label(record) == "(arXiv)"@
            &&& !doi && !arxiv ==> source_label(record) == "(Generated)"@
        }),
{
}

} // verus!
