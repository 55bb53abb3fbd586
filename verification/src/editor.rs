//! Text editing math and geometry of the terminal editor.

use crate::chars::{char_classes, classes_of, CharClass};
use crate::text::{
    byte_len, byte_offset, char_index, count_char, from_chars, index_at, is_boundary, max, min,
    offset, text_len, to_chars,
};
use vstd::prelude::*;

verus! {

/// Number of characters of `s` before `cursor`, a cursor past the end
/// counting as one at the end.
pub open spec fn caret(s: Seq<char>, cursor: int) -> int {
    index_at(s, min(cursor, byte_len(s) as int))
}

/// Whether `cursor`, cut to the length of `s`, lies between two characters.
pub open spec fn caret_ok(s: Seq<char>, cursor: int) -> bool {
    is_boundary(s, min(cursor, byte_len(s) as int))
}

/// Start of the line that holds the caret before character `k`.
pub open spec fn line_start(s: Seq<char>, k: int) -> int
    decreases k,
{
    if 0 < k && s[k - 1] != '\n' {
        line_start(s, k - 1)
    } else {
        k
    }
}

/// End of the line that holds the caret before character `k`.
pub open spec fn line_end(s: Seq<char>, k: int) -> int
    decreases s.len() - k,
{
    if k < s.len() && s[k] != '\n' {
        line_end(s, k + 1)
    } else {
        k
    }
}

/// Rows that a line of `n` characters takes when it is wrapped at `w` columns.
pub open spec fn wrap_rows(n: int, w: int) -> int {
    let w = max(w, 1);
    if n == 0 {
        1
    } else if n % w == 0 {
        n / w
    } else {
        n / w + 1
    }
}

/// Rows that the lines before the line start `j` take together.
pub open spec fn rows_before(s: Seq<char>, j: int, w: int) -> int
    decreases j,
    via rows_before_decreases
{
    if j <= 0 {
        0
    } else {
        let p = line_start(s, j - 1);
        rows_before(s, p, w) + wrap_rows(j - 1 - p, w)
    }
}

#[via_fn]
proof fn rows_before_decreases(s: Seq<char>, j: int, w: int) {
    if j > 0 {
        lemma_line_start(s, j - 1);
    }
}

/// Row and column of the caret before character `k`. A caret behind a line
/// that fills its last row stays on that row's last column.
pub open spec fn visual_position(s: Seq<char>, k: int, w: int) -> (int, int) {
    let w = max(w, 1);
    let start = line_start(s, k);
    let col = k - start;
    let len = line_end(s, k) - start;
    let base = rows_before(s, start, w);
    if col == len && len > 0 && len % w == 0 {
        (base + col / w - 1, w - 1)
    } else {
        (base + col / w, col % w)
    }
}

/// Character in front of which the cell at `row`, counted from the line start
/// `start`, and `col` lies.
pub open spec fn locate(s: Seq<char>, start: int, row: int, col: int, w: int) -> int
    decreases s.len() - start,
    via locate_decreases
{
    let end = line_end(s, start);
    let rows = wrap_rows(end - start, w);
    if row < rows {
        start + min(row * max(w, 1) + col, end - start)
    } else if end < s.len() {
        locate(s, end + 1, row - rows, col, w)
    } else {
        s.len() as int
    }
}

#[via_fn]
proof fn locate_decreases(s: Seq<char>, start: int, row: int, col: int, w: int) {
    lemma_line_end(s, start);
}

/// Column behind the last character of `s`, with tab stops every `w` columns.
pub open spec fn column(s: Seq<char>, w: int) -> int
    decreases s.len(),
{
    if s.len() == 0 || s.last() == '\n' {
        0
    } else if s.last() == '\t' {
        let c = column(s.drop_last(), w);
        c + (w - c % w)
    } else {
        column(s.drop_last(), w) + 1
    }
}

/// `s` with every tab replaced by the spaces up to the next tab stop.
pub open spec fn expanded(s: Seq<char>, w: int) -> Seq<char>
    decreases s.len(),
{
    if s.len() == 0 {
        s
    } else if s.last() == '\t' {
        expanded(s.drop_last(), w) + Seq::new(
            (w - column(s.drop_last(), w) % w) as nat,
            |i: int| ' ',
        )
    } else {
        expanded(s.drop_last(), w).push(s.last())
    }
}

/// First of the characters of class `c` that end right before position `k`.
pub open spec fn run_start(cl: Seq<CharClass>, k: int, c: CharClass) -> int
    decreases k,
{
    if 0 < k && cl[k - 1] == c {
        run_start(cl, k - 1, c)
    } else {
        k
    }
}

/// Position behind the characters of class `c` that start at position `k`.
pub open spec fn run_end(cl: Seq<CharClass>, k: int, c: CharClass) -> int
    decreases cl.len() - k,
{
    if k < cl.len() && cl[k] == c {
        run_end(cl, k + 1, c)
    } else {
        k
    }
}

/// Start of the word before position `k`: white space is skipped, then all
/// characters of the class in front of it.
pub open spec fn word_left(cl: Seq<CharClass>, k: int) -> int {
    let j = run_start(cl, k, CharClass::Space);
    if j <= 0 {
        0
    } else {
        run_start(cl, j, cl[j - 1])
    }
}

/// Start of the word behind position `k`: the characters of the class at `k`
/// are skipped, then white space.
pub open spec fn word_right(cl: Seq<CharClass>, k: int) -> int {
    if k >= cl.len() {
        cl.len() as int
    } else {
        run_end(cl, run_end(cl, k, cl[k]), CharClass::Space)
    }
}

pub proof fn lemma_line_start(s: Seq<char>, k: int)
    requires
        0 <= k,
    ensures
        0 <= line_start(s, k) <= k,
        line_start(s, k) == 0 || s[line_start(s, k) - 1] == '\n',
        forall|i: int| line_start(s, k) <= i < k ==> s[i] != '\n',
    decreases k,
{
    if 0 < k && s[k - 1] != '\n' {
        lemma_line_start(s, k - 1);
    }
}

pub proof fn lemma_line_end(s: Seq<char>, k: int)
    ensures
        k <= line_end(s, k),
        k <= s.len() ==> line_end(s, k) <= s.len(),
        line_end(s, k) < s.len() ==> s[line_end(s, k)] == '\n',
        forall|i: int| k <= i < line_end(s, k) ==> s[i] != '\n',
    decreases s.len() - k,
{
    if k < s.len() && s[k] != '\n' {
        lemma_line_end(s, k + 1);
    }
}

/// A line end does not depend on where on the line the search starts.
pub(crate) proof fn lemma_line_end_from(s: Seq<char>, j: int, k: int)
    requires
        0 <= j <= k <= s.len(),
        forall|i: int| j <= i < k ==> s[i] != '\n',
    ensures
        line_end(s, j) == line_end(s, k),
    decreases k - j,
{
    if j < k {
        lemma_line_end_from(s, j + 1, k);
    }
}

proof fn lemma_wrap_rows(n: int, w: int)
    requires
        0 <= n,
    ensures
        1 <= wrap_rows(n, w) <= n + 1,
        n > 0 ==> wrap_rows(n, w) <= n,
{
    let w = max(w, 1);
    vstd::arithmetic::div_mod::lemma_fundamental_div_mod(n, w);
    assert(n > 0 ==> 0 <= n / w <= n) by (nonlinear_arith)
        requires
            n == w * (n / w) + n % w,
            0 <= n,
            1 <= w,
            0 <= n % w < w,
    ;
    if n > 0 && n % w != 0 {
        assert(n / w + 1 <= n) by (nonlinear_arith)
            requires
                n == w * (n / w) + n % w,
                0 < n % w < w,
                0 <= n / w,
        ;
    }
    if n > 0 && n % w == 0 {
        assert(1 <= n / w) by (nonlinear_arith)
            requires
                n == w * (n / w) + n % w,
                n % w == 0,
                0 < n,
                1 <= w,
        ;
    }
}

/// A cell in front of a character of the line lies on one of its rows.
proof fn lemma_row_of(n: int, w: int, q: int, r: int)
    requires
        1 <= w,
        0 <= r < w,
        0 <= q,
        q * w + r < n,
    ensures
        q < wrap_rows(n, w),
{
    vstd::arithmetic::div_mod::lemma_fundamental_div_mod(n, w);
    assert(0 < n) by (nonlinear_arith)
        requires
            q * w + r < n,
            0 <= r,
            0 <= q,
            1 <= w,
    ;
    if q > n / w {
        assert(q * w >= w * (n / w) + w) by (nonlinear_arith)
            requires
                q >= n / w + 1,
                w >= 1,
        ;
    }
    if q == n / w && n % w == 0 {
        assert(q * w == w * (n / w)) by (nonlinear_arith)
            requires
                q == n / w,
        ;
    }
}

/// Rows that are not needed for whole earlier lines belong to the later ones.
proof fn lemma_locate_from(s: Seq<char>, j: int, row: int, col: int, w: int)
    requires
        0 <= j <= s.len(),
        j == 0 || s[j - 1] == '\n',
        0 <= row,
    ensures
        locate(s, 0, rows_before(s, j, w) + row, col, w) == locate(s, j, row, col, w),
        0 <= rows_before(s, j, w),
    decreases j,
{
    if j > 0 {
        let p = line_start(s, j - 1);
        lemma_line_start(s, j - 1);
        lemma_line_end_from(s, p, j - 1);
        assert(line_end(s, p) == j - 1);
        lemma_wrap_rows(j - 1 - p, w);
        lemma_locate_from(s, p, wrap_rows(j - 1 - p, w) + row, col, w);
    }
}

proof fn lemma_locate_bounds(s: Seq<char>, start: int, row: int, col: int, w: int)
    requires
        0 <= start <= s.len(),
        0 <= row,
        0 <= col,
    ensures
        0 <= locate(s, start, row, col, w) <= s.len(),
    decreases s.len() - start,
{
    lemma_line_end(s, start);
    let end = line_end(s, start);
    let rows = wrap_rows(end - start, w);
    lemma_wrap_rows(end - start, w);
    assert(0 <= row * max(w, 1)) by (nonlinear_arith)
        requires
            0 <= row,
            1 <= max(w, 1),
    ;
    if row >= rows && end < s.len() {
        lemma_locate_bounds(s, end + 1, row - rows, col, w);
    }
}

/// A caret that moves by rows stays in its text.
pub proof fn lemma_rows_moved(s: Seq<char>, k: int, delta: int, w: int)
    requires
        0 <= k <= s.len(),
    ensures
        0 <= rows_moved(s, k, delta, visual_position(s, k, w).1, w) <= s.len(),
{
    let w1 = max(w, 1);
    lemma_line_start(s, k);
    lemma_line_end(s, k);
    let n = s.len() as int;
    lemma_line_start(s, n);
    lemma_locate_from(s, line_start(s, n), 0, 0, w1);
    lemma_wrap_rows(n - line_start(s, n), w1);
    let col = k - line_start(s, k);
    assert(0 <= col % w1) by (nonlinear_arith)
        requires
            1 <= w1,
    ;
    lemma_locate_bounds(
        s,
        0,
        min(max(visual_position(s, k, w).0 + delta, 0), last_row(s, w1)),
        visual_position(s, k, w).1,
        w,
    );
}

/// Mapping a caret to its cell and back gives the same caret, unless it stands
/// behind a line that fills its last row: that one shares the last cell.
pub proof fn lemma_visual_round_trip(s: Seq<char>, k: int, w: int)
    requires
        0 <= k <= s.len(),
        !(line_end(s, k) == k && line_start(s, k) < k && (k - line_start(s, k)) % max(w, 1) == 0),
    ensures
        ({
            let (row, col) = visual_position(s, k, w);
            locate(s, 0, row, col, w) == k
        }),
{
    let v = max(w, 1);
    let start = line_start(s, k);
    lemma_line_start(s, k);
    lemma_line_end(s, k);
    lemma_line_end_from(s, start, k);
    let col = k - start;
    let len = line_end(s, k) - start;
    vstd::arithmetic::div_mod::lemma_fundamental_div_mod(col, v);
    assert((col / v) * v == v * (col / v)) by (nonlinear_arith);
    assert(0 <= col / v) by (nonlinear_arith)
        requires
            0 <= col,
            1 <= v,
    ;
    lemma_wrap_rows(len, w);
    vstd::arithmetic::div_mod::lemma_fundamental_div_mod(len, v);
    if col == len {
        if len > 0 {
            assert(col % v != 0);
            assert(col / v < wrap_rows(len, w));
        } else {
            assert(col / v == 0) by (nonlinear_arith)
                requires
                    col == 0,
                    1 <= v,
            ;
            assert(col % v == 0) by (nonlinear_arith)
                requires
                    col == 0,
                    1 <= v,
            ;
        }
    } else {
        lemma_row_of(len, v, col / v, col % v);
    }
    lemma_rows_before_width(s, start, w);
    lemma_locate_from(s, start, col / v, col % v, w);
}

/// Widths below one count as one.
proof fn lemma_rows_before_width(s: Seq<char>, j: int, w: int)
    requires
        0 <= j,
    ensures
        rows_before(s, j, w) == rows_before(s, j, max(w, 1)),
    decreases j,
{
    if j > 0 {
        lemma_line_start(s, j - 1);
        lemma_rows_before_width(s, line_start(s, j - 1), w);
    }
}

/// The caret lies on its own line: between the line's ends there is no line
/// break, and the ends are at breaks or at the ends of the text.
pub proof fn lemma_line_of_caret(s: Seq<char>, k: int)
    requires
        0 <= k <= s.len(),
    ensures
        0 <= line_start(s, k) <= k <= line_end(s, k) <= s.len(),
        forall|i: int| line_start(s, k) <= i < line_end(s, k) ==> s[i] != '\n',
        line_start(s, k) == 0 || s[line_start(s, k) - 1] == '\n',
        line_end(s, k) == s.len() || s[line_end(s, k)] == '\n',
{
    lemma_line_start(s, k);
    lemma_line_end(s, k);
}

/// Expansion leaves no tab, keeps every line break, and changes nothing in a
/// text without tabs.
pub proof fn lemma_expanded(s: Seq<char>, w: int)
    requires
        1 <= w,
    ensures
        !expanded(s, w).contains('\t'),
        count_char(expanded(s, w), '\n') == count_char(s, '\n'),
        !s.contains('\t') ==> expanded(s, w) == s,
        0 <= column(s, w) <= expanded(s, w).len(),
    decreases s.len(),
{
    if s.len() > 0 {
        let init = s.drop_last();
        lemma_expanded(init, w);
        let e = expanded(init, w);
        let c = column(init, w);
        vstd::arithmetic::div_mod::lemma_fundamental_div_mod(c, w);
        if s.last() == '\t' {
            let spaces = Seq::new((w - c % w) as nat, |i: int| ' ');
            crate::text::lemma_count_add(e, spaces, '\n');
            lemma_count_none(spaces, '\n');
            assert forall|i: int| 0 <= i < (e + spaces).len() implies (e + spaces)[i] != '\t' by {
                if i < e.len() {
                    assert(e.contains(e[i]));
                }
            }
            assert(s[s.len() - 1] == '\t');
        } else {
            assert(e.push(s.last()).drop_last() =~= e);
            assert forall|i: int| 0 <= i < e.len() + 1 implies e.push(s.last())[i] != '\t' by {
                if i < e.len() {
                    assert(e.contains(e[i]));
                }
            }
            if !s.contains('\t') {
                assert forall|i: int| 0 <= i < init.len() implies init[i] != '\t' by {
                    assert(s.contains(s[i]));
                }
                assert(e.push(s.last()) =~= s);
            }
        }
    } else {
        assert(expanded(s, w) =~= s);
    }
}

proof fn lemma_count_none(s: Seq<char>, c: char)
    requires
        forall|i: int| 0 <= i < s.len() ==> s[i] != c,
    ensures
        count_char(s, c) == 0,
    decreases s.len(),
{
    if s.len() > 0 {
        lemma_count_none(s.drop_last(), c);
    }
}

proof fn lemma_expanded_prefix(s: Seq<char>, w: int, i: int, j: int)
    requires
        1 <= w,
        0 <= i <= j <= s.len(),
    ensures
        expanded(s.take(i), w).len() <= expanded(s.take(j), w).len(),
        byte_len(expanded(s.take(i), w)) <= byte_len(expanded(s.take(j), w)),
    decreases j - i,
{
    if i < j {
        lemma_expanded_prefix(s, w, i, j - 1);
        let t = s.take(j);
        assert(t.drop_last() =~= s.take(j - 1));
        let e = expanded(t.drop_last(), w);
        if t.last() == '\t' {
            crate::text::lemma_byte_len_add(
                e,
                Seq::new((w - column(t.drop_last(), w) % w) as nat, |i: int| ' '),
            );
        } else {
            assert(e.push(t.last()).drop_last() =~= e);
        }
    }
}

proof fn lemma_run_start(cl: Seq<CharClass>, k: int, c: CharClass)
    requires
        0 <= k,
    ensures
        0 <= run_start(cl, k, c) <= k,
    decreases k,
{
    if 0 < k && cl[k - 1] == c {
        lemma_run_start(cl, k - 1, c);
    }
}

proof fn lemma_run_end(cl: Seq<CharClass>, k: int, c: CharClass)
    ensures
        k <= run_end(cl, k, c),
        k <= cl.len() ==> run_end(cl, k, c) <= cl.len(),
    decreases cl.len() - k,
{
    if k < cl.len() && cl[k] == c {
        lemma_run_end(cl, k + 1, c);
    }
}

/// Word motions stay inside the text, and move unless they are at its end.
pub proof fn lemma_word_motion(cl: Seq<CharClass>, k: int)
    requires
        0 <= k <= cl.len(),
    ensures
        0 <= word_left(cl, k) <= k,
        k > 0 ==> word_left(cl, k) < k,
        k <= word_right(cl, k) <= cl.len(),
        k < cl.len() ==> k < word_right(cl, k),
{
    let j = run_start(cl, k, CharClass::Space);
    lemma_run_start(cl, k, CharClass::Space);
    if j > 0 {
        lemma_run_start(cl, j - 1, cl[j - 1]);
    }
    if k < cl.len() {
        lemma_run_end(cl, k + 1, cl[k]);
        lemma_run_end(cl, run_end(cl, k, cl[k]), CharClass::Space);
    }
}

/// Start of the word before position `at`.
pub fn word_left_index(cl: &Vec<CharClass>, at: usize) -> (r: usize)
    requires
        at <= cl@.len(),
    ensures
        r == word_left(cl@, at as int),
        r <= at,
{
    let mut pos: usize = at;
    while pos > 0 && cl[pos - 1] == CharClass::Space
        invariant
            pos <= at <= cl@.len(),
            run_start(cl@, at as int, CharClass::Space) == run_start(
                cl@,
                pos as int,
                CharClass::Space,
            ),
        decreases pos,
    {
        pos = pos - 1;
    }
    if pos == 0 {
        return 0;
    }
    let class: CharClass = cl[pos - 1];
    let ghost j = pos as int;
    while pos > 0 && cl[pos - 1] == class
        invariant
            pos <= at <= cl@.len(),
            run_start(cl@, j, class) == run_start(cl@, pos as int, class),
        decreases pos,
    {
        pos = pos - 1;
    }
    pos
}

/// Start of the word behind position `at`.
pub fn word_right_index(cl: &Vec<CharClass>, at: usize) -> (r: usize)
    requires
        at <= cl@.len(),
    ensures
        r == word_right(cl@, at as int),
        at <= r <= cl@.len(),
{
    if at >= cl.len() {
        return cl.len();
    }
    let class: CharClass = cl[at];
    let mut pos: usize = at;
    while pos < cl.len() && cl[pos] == class
        invariant
            at <= pos <= cl@.len(),
            run_end(cl@, at as int, class) == run_end(cl@, pos as int, class),
        decreases cl@.len() - pos,
    {
        pos = pos + 1;
    }
    let ghost j = pos as int;
    while pos < cl.len() && cl[pos] == CharClass::Space
        invariant
            at <= pos <= cl@.len(),
            run_end(cl@, j, CharClass::Space) == run_end(cl@, pos as int, CharClass::Space),
        decreases cl@.len() - pos,
    {
        pos = pos + 1;
    }
    pos
}

/// Characters before the cursor, a cursor past the end counting as the end.
pub(crate) fn caret_index(chars: &Vec<char>, cursor: usize) -> (k: usize)
    requires
        byte_len(chars@) <= usize::MAX,
        caret_ok(chars@, cursor as int),
    ensures
        k == caret(chars@, cursor as int),
        k <= chars@.len(),
{
    let len: usize = byte_offset(chars, chars.len());
    proof {
        crate::text::lemma_offset_ends(chars@);
        crate::text::lemma_boundary_ends(chars@);
    }
    if cursor >= len {
        chars.len()
    } else {
        match char_index(chars, cursor) {
            Some(k) => k,
            None => 0,
        }
    }
}

/// Rows that a line of `char_len` characters takes when it is wrapped.
pub fn config_editor_wrap_rows(char_len: usize, wrap_width: usize) -> (rows: usize)
    ensures
        rows == wrap_rows(char_len as int, wrap_width as int),
        1 <= rows <= char_len + 1,
        char_len > 0 ==> rows <= char_len,
{
    proof {
        lemma_wrap_rows(char_len as int, wrap_width as int);
    }
    let w: usize = if wrap_width == 0 {
        1
    } else {
        wrap_width
    };
    if char_len == 0 {
        1
    } else if char_len % w == 0 {
        char_len / w
    } else {
        char_len / w + 1
    }
}

pub(crate) fn line_start_index(chars: &Vec<char>, at: usize) -> (r: usize)
    requires
        at <= chars@.len(),
    ensures
        r == line_start(chars@, at as int),
        r <= at,
{
    let mut pos: usize = at;
    while pos > 0 && chars[pos - 1] != '\n'
        invariant
            pos <= at <= chars@.len(),
            line_start(chars@, at as int) == line_start(chars@, pos as int),
        decreases pos,
    {
        pos = pos - 1;
    }
    pos
}

pub(crate) fn line_end_index(chars: &Vec<char>, at: usize) -> (r: usize)
    requires
        at <= chars@.len(),
    ensures
        r == line_end(chars@, at as int),
        at <= r <= chars@.len(),
{
    let mut pos: usize = at;
    while pos < chars.len() && chars[pos] != '\n'
        invariant
            at <= pos <= chars@.len(),
            line_end(chars@, at as int) == line_end(chars@, pos as int),
        decreases chars@.len() - pos,
    {
        pos = pos + 1;
    }
    pos
}

/// Cursor at the start of the line that holds `cursor`.
pub fn config_editor_line_start(text: &str, cursor: usize) -> (r: usize)
    requires
        caret_ok(text@, cursor as int),
    ensures
        r == offset(text@, line_start(text@, caret(text@, cursor as int))),
        is_boundary(text@, r as int),
{
    let chars = to_chars(text);
    let k: usize = caret_index(&chars, cursor);
    let j: usize = line_start_index(&chars, k);
    proof {
        crate::text::lemma_index_at(text@, j as int);
    }
    byte_offset(&chars, j)
}

/// Cursor at the end of the line that holds `cursor`.
pub fn config_editor_line_end(text: &str, cursor: usize) -> (r: usize)
    requires
        caret_ok(text@, cursor as int),
    ensures
        r == offset(text@, line_end(text@, caret(text@, cursor as int))),
        is_boundary(text@, r as int),
{
    let chars = to_chars(text);
    let k: usize = caret_index(&chars, cursor);
    let j: usize = line_end_index(&chars, k);
    proof {
        crate::text::lemma_index_at(text@, j as int);
    }
    byte_offset(&chars, j)
}

/// The last boundary before `cursor`, or the start of the text.
pub fn prev_char_boundary(text: &str, cursor: usize) -> (r: usize)
    ensures
        is_boundary(text@, r as int),
        cursor == 0 ==> r == 0,
        cursor > 0 ==> r < cursor,
        forall|b: int| r < b < cursor ==> !is_boundary(text@, b),
{
    proof {
        crate::text::lemma_boundary_ends(text@);
    }
    if cursor == 0 {
        return 0;
    }
    let mut prev: usize = cursor - 1;
    proof {
        crate::text::lemma_encode_boundary(text@, prev as int);
    }
    while prev > 0 && !text.is_char_boundary(prev)
        invariant
            prev < cursor,
            forall|b: int| prev < b < cursor ==> !is_boundary(text@, b),
            text.is_char_boundary(prev) == is_boundary(text@, prev as int),
        decreases prev,
    {
        prev = prev - 1;
        proof {
            crate::text::lemma_encode_boundary(text@, prev as int);
        }
    }
    prev
}

/// The first boundary behind `cursor`, or the end of the text.
pub fn next_char_boundary(text: &str, cursor: usize) -> (r: usize)
    ensures
        is_boundary(text@, r as int),
        cursor >= byte_len(text@) ==> r == byte_len(text@),
        cursor < byte_len(text@) ==> r > cursor,
        forall|b: int| cursor < b < r ==> !is_boundary(text@, b),
{
    proof {
        crate::text::lemma_boundary_ends(text@);
    }
    let len: usize = text_len(text);
    if cursor >= len {
        return len;
    }
    let mut next: usize = cursor + 1;
    proof {
        crate::text::lemma_encode_boundary(text@, next as int);
    }
    while next < len && !text.is_char_boundary(next)
        invariant
            cursor < next <= len,
            len == byte_len(text@),
            forall|b: int| cursor < b < next ==> !is_boundary(text@, b),
            text.is_char_boundary(next) == is_boundary(text@, next as int),
        decreases len - next,
    {
        next = next + 1;
        proof {
            crate::text::lemma_encode_boundary(text@, next as int);
        }
    }
    next
}

/// Cursor at the start of the word before `cursor`.
pub fn prev_word_boundary(text: &str, cursor: usize) -> (r: usize)
    requires
        caret_ok(text@, cursor as int),
    ensures
        r == offset(text@, word_left(classes_of(text@), caret(text@, cursor as int))),
        is_boundary(text@, r as int),
{
    let chars = to_chars(text);
    let k: usize = caret_index(&chars, cursor);
    let classes = char_classes(&chars);
    let j: usize = word_left_index(&classes, k);
    proof {
        crate::text::lemma_index_at(text@, j as int);
    }
    byte_offset(&chars, j)
}

/// Cursor at the start of the word behind `cursor`.
pub fn next_word_boundary(text: &str, cursor: usize) -> (r: usize)
    requires
        caret_ok(text@, cursor as int),
    ensures
        r == offset(text@, word_right(classes_of(text@), caret(text@, cursor as int))),
        is_boundary(text@, r as int),
{
    let chars = to_chars(text);
    let k: usize = caret_index(&chars, cursor);
    let classes = char_classes(&chars);
    let j: usize = word_right_index(&classes, k);
    proof {
        crate::text::lemma_index_at(text@, j as int);
    }
    byte_offset(&chars, j)
}

/// Byte index of the character at a column, or the end of the text.
pub fn byte_index_for_char_column(text: &str, char_col: usize) -> (r: usize)
    ensures
        r == offset(text@, min(char_col as int, text@.len() as int)),
        is_boundary(text@, r as int),
{
    let chars = to_chars(text);
    let k: usize = if char_col < chars.len() {
        char_col
    } else {
        chars.len()
    };
    proof {
        crate::text::lemma_index_at(text@, k as int);
    }
    byte_offset(&chars, k)
}

/// Row and column at which `cursor` is shown when lines wrap at `wrap_width`.
pub fn cursor_visual_position(text: &str, cursor: usize, wrap_width: usize) -> (r: (usize, usize))
    requires
        caret_ok(text@, cursor as int),
    ensures
        (r.0 as int, r.1 as int) == visual_position(
            text@,
            caret(text@, cursor as int),
            wrap_width as int,
        ),
{
    let w: usize = if wrap_width == 0 {
        1
    } else {
        wrap_width
    };
    let chars = to_chars(text);
    let k: usize = caret_index(&chars, cursor);
    let mut rows: usize = 0;
    let mut start: usize = 0;
    let mut i: usize = 0;
    proof {
        crate::text::lemma_offset_ends(text@);
    }
    while i < k
        invariant
            start <= i <= k <= chars@.len(),
            w >= 1,
            start == line_start(chars@, i as int),
            rows == rows_before(chars@, start as int, w as int),
            rows <= start,
        decreases k - i,
    {
        if chars[i] == '\n' {
            rows = rows + config_editor_wrap_rows(i - start, w);
            start = i + 1;
        }
        i = i + 1;
    }
    let end: usize = line_end_index(&chars, k);
    let col: usize = k - start;
    let len: usize = end - start;
    proof {
        vstd::arithmetic::div_mod::lemma_fundamental_div_mod(col as int, w as int);
        assert(0 <= col as int / w as int <= col) by (nonlinear_arith)
            requires
                col as int == w as int * (col as int / w as int) + col as int % w as int,
                0 <= col as int % w as int,
                w >= 1,
        ;
        if col > 0 && col % w == 0 {
            assert(col as int / w as int >= 1) by (nonlinear_arith)
                requires
                    col as int == w as int * (col as int / w as int) + col as int % w as int,
                    col as int % w as int == 0,
                    col > 0,
                    w >= 1,
            ;
        }
    }
    if col == len && len > 0 && len % w == 0 {
        (rows + col / w - 1, w - 1)
    } else {
        (rows + col / w, col % w)
    }
}

/// Cursor of the cell at a row and a column when lines wrap at `wrap_width`.
/// Rows below the text give its end.
pub fn cursor_from_visual_position(
    text: &str,
    target_row: usize,
    target_col: usize,
    wrap_width: usize,
) -> (r: usize)
    ensures
        r == offset(
            text@,
            locate(text@, 0, target_row as int, target_col as int, wrap_width as int),
        ),
        is_boundary(text@, r as int),
{
    let w: usize = if wrap_width == 0 {
        1
    } else {
        wrap_width
    };
    let chars = to_chars(text);
    let mut row: usize = target_row;
    let mut start: usize = 0;
    loop
        invariant
            w == max(wrap_width as int, 1),
            chars@ == text@,
            byte_len(chars@) <= usize::MAX,
            start <= chars@.len(),
            locate(text@, 0, target_row as int, target_col as int, wrap_width as int) == locate(
                chars@,
                start as int,
                row as int,
                target_col as int,
                wrap_width as int,
            ),
        decreases chars@.len() - start,
    {
        let end: usize = line_end_index(&chars, start);
        let len: usize = end - start;
        let rows: usize = config_editor_wrap_rows(len, wrap_width);
        if row < rows {
            proof {
                lemma_row_fits(row as int, len as int, w as int, wrap_width as int);
            }
            let base: usize = row * w;
            let col: usize = if target_col < len && base < len - target_col {
                base + target_col
            } else {
                len
            };
            proof {
                crate::text::lemma_index_at(text@, start + col);
            }
            return byte_offset(&chars, start + col);
        }
        if end >= chars.len() {
            proof {
                crate::text::lemma_index_at(text@, text@.len() as int);
            }
            return byte_offset(&chars, chars.len());
        }
        row = row - rows;
        start = end + 1;
    }
}

/// The start of a row inside a line is not behind the line.
pub(crate) proof fn lemma_row_fits(row: int, len: int, w: int, wrap_width: int)
    requires
        0 <= row < wrap_rows(len, wrap_width),
        0 <= len,
        w == max(wrap_width, 1),
    ensures
        0 <= row * w <= len,
{
    vstd::arithmetic::div_mod::lemma_fundamental_div_mod(len, w);
    if len == 0 {
        assert(row * w == 0) by (nonlinear_arith)
            requires
                row == 0,
        ;
    } else {
        assert(0 <= row * w <= w * (len / w)) by (nonlinear_arith)
            requires
                0 <= row <= len / w,
                w >= 1,
        ;
    }
}

/// The text as it is shown, with tabs expanded, and the cursor in it. A cursor
/// inside a character is shown at the start.
pub fn expand_tabs_for_editor_view(text: &str, cursor: usize, tab_width: usize) -> (r: (
    String,
    usize,
))
    requires
        byte_len(expanded(text@, max(tab_width as int, 1))) <= usize::MAX,
    ensures
        r.0@ == expanded(text@, max(tab_width as int, 1)),
        caret_ok(text@, cursor as int) ==> r.1 == byte_len(
            expanded(text@.take(caret(text@, cursor as int)), max(tab_width as int, 1)),
        ),
        !caret_ok(text@, cursor as int) ==> r.1 == 0,
        is_boundary(r.0@, r.1 as int),
{
    let w: usize = if tab_width == 0 {
        1
    } else {
        tab_width
    };
    let chars = to_chars(text);
    let len: usize = byte_offset(&chars, chars.len());
    let at: usize = if cursor < len {
        cursor
    } else {
        len
    };
    proof {
        crate::text::lemma_offset_ends(text@);
        crate::text::lemma_offset_ends(expanded(text@, w as int));
        lemma_expanded(text@, w as int);
        assert(text@.take(text@.len() as int) =~= text@);
    }
    let caret_at: Option<usize> = char_index(&chars, at);
    let mut display: Vec<char> = Vec::new();
    let mut display_index: usize = 0;
    let mut column_now: usize = 0;
    let mut i: usize = 0;
    assert(text@.take(0) =~= Seq::<char>::empty());
    assert(expanded(Seq::<char>::empty(), w as int) =~= Seq::<char>::empty());
    loop
        invariant_except_break
            caret_at matches Some(k) ==> k >= i ==> display_index == 0,
        invariant
            i <= chars@.len(),
            chars@ == text@,
            w >= 1,
            expanded(text@, w as int).len() <= usize::MAX,
            caret_at matches Some(k) ==> k <= chars@.len(),
            display@ == expanded(text@.take(i as int), w as int),
            column_now == column(text@.take(i as int), w as int),
            caret_at matches Some(k) ==> (k < i ==> display_index == expanded(
                text@.take(k as int),
                w as int,
            ).len()),
            caret_at is None ==> display_index == 0,
            display_index <= display@.len(),
        ensures
            display@ == expanded(text@, w as int),
            caret_at matches Some(k) ==> display_index == expanded(
                text@.take(k as int),
                w as int,
            ).len(),
            caret_at is None ==> display_index == 0,
            display_index <= display@.len(),
        decreases chars@.len() - i,
    {
        match caret_at {
            Some(k) => {
                if k == i {
                    display_index = display.len();
                }
            },
            None => {},
        }
        if i >= chars.len() {
            assert(text@.take(i as int) =~= text@);
            break ;
        }
        let c: char = chars[i];
        let ghost before = text@.take(i as int);
        let ghost after = text@.take(i + 1);
        proof {
            assert(after.drop_last() =~= before);
            assert(after.last() == c);
            lemma_expanded_prefix(text@, w as int, i + 1, text@.len() as int);
            assert(text@.take(text@.len() as int) =~= text@);
            lemma_expanded(before, w as int);
            lemma_expanded(after, w as int);
            vstd::arithmetic::div_mod::lemma_fundamental_div_mod(column_now as int, w as int);
        }
        if c == '\t' {
            let spaces: usize = w - column_now % w;
            let ghost shown = display@;
            let mut n: usize = 0;
            while n < spaces
                invariant
                    n <= spaces,
                    display@ == shown + Seq::new(n as nat, |i: int| ' '),
                decreases spaces - n,
            {
                display.push(' ');
                n = n + 1;
                assert(display@ =~= shown + Seq::new(n as nat, |i: int| ' '));
            }
            column_now = column_now + spaces;
        } else {
            display.push(c);
            if c == '\n' {
                column_now = 0;
            } else {
                column_now = column_now + 1;
            }
        }
        i = i + 1;
    }
    proof {
        match caret_at {
            Some(k) => {
                lemma_expanded_take(text@, w as int, k as int);
                assert(display@.take(display_index as int) =~= expanded(
                    text@.take(k as int),
                    w as int,
                ));
            },
            None => {
                crate::text::lemma_offset_ends(display@);
            },
        }
        crate::text::lemma_index_at(display@, display_index as int);
    }
    let shown_cursor: usize = byte_offset(&display, display_index);
    (from_chars(&display), shown_cursor)
}

/// The expansion of a prefix is a prefix of the expansion.
pub proof fn lemma_expanded_take(s: Seq<char>, w: int, k: int)
    requires
        1 <= w,
        0 <= k <= s.len(),
    ensures
        expanded(s.take(k), w).len() <= expanded(s, w).len(),
        expanded(s, w).take(expanded(s.take(k), w).len() as int) == expanded(s.take(k), w),
    decreases s.len() - k,
{
    if k == s.len() {
        assert(s.take(k) =~= s);
        assert(expanded(s, w).take(expanded(s, w).len() as int) =~= expanded(s, w));
    } else {
        lemma_expanded_take(s, w, k + 1);
        let t = s.take(k + 1);
        assert(t.drop_last() =~= s.take(k));
        let e = expanded(s.take(k), w);
        let f = expanded(t, w);
        assert(f.take(e.len() as int) =~= e);
        assert(expanded(s, w).take(e.len() as int) =~= expanded(s, w).take(f.len() as int).take(
            e.len() as int,
        ));
    }
}

/// Where the character `i` of a text is shown once its tabs are expanded: from which
/// position on, and up to which.
pub open spec fn shown_at(s: Seq<char>, w: int, i: int) -> (int, int) {
    (expanded(s.take(i), w).len() as int, expanded(s.take(i + 1), w).len() as int)
}

/// Whether character `i` of a text is shown as it is to be in `d`: a tab as one to
/// `w` spaces, which reach the next multiple of `w` characters in its line, and any
/// other character as itself.
pub open spec fn shown_right(s: Seq<char>, w: int, d: Seq<char>, i: int) -> bool {
    let (from, to) = shown_at(s, w, i);
    &&& 0 <= from < to <= d.len()
    &&& if s[i] == '\t' {
        &&& to - from <= w
        &&& forall|j: int| from <= j < to ==> d[j] == ' '
        &&& (to - line_start(d, to)) % w == 0
    } else {
        to == from + 1 && d[from] == s[i]
    }
}

/// What a text shows once its tabs are expanded: no tab, every character in its
/// order and each tab as the spaces up to the next tab stop, with nothing between
/// them. The part before the caret is what the text before the caret shows, and a
/// text without tabs stays as it is, with its caret.
pub proof fn lemma_tabs_expanded(s: Seq<char>, cursor: int, w: int)
    requires
        1 <= w,
        caret_ok(s, cursor),
    ensures
        ({
            let d = expanded(s, w);
            let before = expanded(s.take(caret(s, cursor)), w);
            let shown = byte_len(before) as int;
            &&& !d.contains('\t')
            &&& forall|i: int| 0 <= i < s.len() ==> #[trigger] shown_right(s, w, d, i)
            &&& shown_at(s, w, 0).0 == 0
            &&& s.len() > 0 ==> shown_at(s, w, s.len() - 1).1 == d.len()
            &&& is_boundary(d, shown)
            &&& d.take(index_at(d, shown)) == before
            &&& !s.contains('\t') ==> d == s && shown == min(cursor, byte_len(s) as int)
        }),
{
    let n = s.len() as int;
    let d = expanded(s, w);
    let k = caret(s, cursor);
    let before = expanded(s.take(k), w);
    crate::text::lemma_boundary(s, min(cursor, byte_len(s) as int));
    lemma_expanded(s, w);
    lemma_expanded(s.take(k), w);
    lemma_expanded_take(s, w, k);
    crate::text::lemma_index_at(d, before.len() as int);
    assert(s.take(n) =~= s);
    assert(s.take(0).len() == 0);
    assert forall|i: int| 0 <= i < n implies #[trigger] shown_right(s, w, d, i) by {
        lemma_shown_right(s, w, i);
    }
    if !s.contains('\t') {
        assert forall|i: int| 0 <= i < k implies s.take(k)[i] != '\t' by {
            assert(s.contains(s[i]));
        }
    }
}

proof fn lemma_shown_right(s: Seq<char>, w: int, i: int)
    requires
        1 <= w,
        0 <= i < s.len(),
    ensures
        shown_right(s, w, expanded(s, w), i),
{
    let d = expanded(s, w);
    let a = s.take(i);
    let b = s.take(i + 1);
    let e = expanded(a, w);
    let f = expanded(b, w);
    assert(b.drop_last() =~= a);
    assert(b.last() == s[i]);
    lemma_expanded_take(s, w, i + 1);
    lemma_expanded(a, w);
    let c = column(a, w);
    vstd::arithmetic::div_mod::lemma_fundamental_div_mod(c, w);
    assert forall|j: int| 0 <= j < f.len() implies d[j] == f[j] by {
        assert(d.take(f.len() as int)[j] == d[j]);
    }
    if s[i] == '\t' {
        lemma_column(b, w);
        lemma_line_start_prefix(d, f, f.len() as int);
        let to = f.len() as int;
        assert(to - line_start(d, to) == c + (w - c % w));
        assert((c + (w - c % w)) % w == 0) by {
            let q = c / w;
            assert(c + (w - c % w) == (q + 1) * w) by (nonlinear_arith)
                requires
                    c == w * q + c % w,
            ;
            vstd::arithmetic::div_mod::lemma_mod_multiples_basic(q + 1, w);
        }
    }
}

/// The column behind a text is the number of characters of its last line that are
/// shown.
proof fn lemma_column(s: Seq<char>, w: int)
    requires
        1 <= w,
    ensures
        column(s, w) == expanded(s, w).len() - line_start(expanded(s, w), expanded(s, w).len() as int),
    decreases s.len(),
{
    let d = expanded(s, w);
    if s.len() > 0 {
        let a = s.drop_last();
        let e = expanded(a, w);
        lemma_column(a, w);
        lemma_expanded(a, w);
        let c = column(a, w);
        vstd::arithmetic::div_mod::lemma_fundamental_div_mod(c, w);
        if s.last() != '\n' {
            lemma_line_start_prefix(d, e, e.len() as int);
            lemma_line_start_skip(d, e.len() as int, d.len() as int);
        }
    }
}

proof fn lemma_line_start_prefix(s: Seq<char>, t: Seq<char>, k: int)
    requires
        0 <= k <= t.len() <= s.len(),
        forall|j: int| 0 <= j < t.len() ==> s[j] == t[j],
    ensures
        line_start(s, k) == line_start(t, k),
    decreases k,
{
    if k > 0 {
        lemma_line_start_prefix(s, t, k - 1);
    }
}

proof fn lemma_line_start_skip(s: Seq<char>, j: int, k: int)
    requires
        0 <= j <= k <= s.len(),
        forall|i: int| j <= i < k ==> s[i] != '\n',
    ensures
        line_start(s, k) == line_start(s, j),
    decreases k - j,
{
    if j < k {
        lemma_line_start_skip(s, j, k - 1);
    }
}

/// The last row that a text takes when its lines wrap at `w` columns.
pub open spec fn last_row(s: Seq<char>, w: int) -> int {
    let start = line_start(s, s.len() as int);
    rows_before(s, start, w) + wrap_rows(s.len() - start, w) - 1
}

/// Caret `delta` rows below the caret before character `k`, at column `goal`.
pub open spec fn rows_moved(s: Seq<char>, k: int, delta: int, goal: int, w: int) -> int {
    let row = visual_position(s, k, w).0;
    locate(s, 0, min(max(row + delta, 0), last_row(s, max(w, 1))), goal, w)
}

fn last_row_index(chars: &Vec<char>, w: usize) -> (r: usize)
    requires
        w >= 1,
    ensures
        r == last_row(chars@, w as int),
{
    let n: usize = chars.len();
    let mut rows: usize = 0;
    let mut start: usize = 0;
    let mut i: usize = 0;
    while i < n
        invariant
            start <= i <= n == chars@.len(),
            w >= 1,
            start == line_start(chars@, i as int),
            rows == rows_before(chars@, start as int, w as int),
            rows <= start,
        decreases n - i,
    {
        if chars[i] == '\n' {
            rows = rows + config_editor_wrap_rows(i - start, w);
            start = i + 1;
        }
        i = i + 1;
    }
    rows + (config_editor_wrap_rows(n - start, w) - 1)
}

/// Cursor `delta` rows below `cursor`, or above it where `delta` is negative,
/// and the column it aims at: `goal`, or the column it comes from.
pub fn move_rows(
    text: &str,
    cursor: usize,
    delta: isize,
    goal: Option<usize>,
    wrap_width: usize,
) -> (r: (usize, usize))
    requires
        caret_ok(text@, cursor as int),
    ensures
        ({
            let k = caret(text@, cursor as int);
            let aim = match goal {
                Some(g) => g as int,
                None => visual_position(text@, k, wrap_width as int).1,
            };
            &&& r.1 == aim
            &&& r.0 == offset(text@, rows_moved(text@, k, delta as int, aim, wrap_width as int))
        }),
        is_boundary(text@, r.0 as int),
{
    let w: usize = if wrap_width == 0 {
        1
    } else {
        wrap_width
    };
    let (row, col) = cursor_visual_position(text, cursor, wrap_width);
    let aim: usize = match goal {
        Some(g) => g,
        None => col,
    };
    let last: usize = last_row_index(&to_chars(text), w);
    let moved: i128 = row as i128 + delta as i128;
    let target: usize = if moved < 0 {
        0
    } else if moved > last as i128 {
        last
    } else {
        moved as usize
    };
    (cursor_from_visual_position(text, target, aim, wrap_width), aim)
}

/// Number of the line, counted from zero, that holds `cursor`.
pub fn project_editor_line_at(text: &str, cursor: usize) -> (r: usize)
    requires
        caret_ok(text@, cursor as int),
    ensures
        r == count_char(text@.take(caret(text@, cursor as int)), '\n'),
{
    let chars = to_chars(text);
    let k: usize = caret_index(&chars, cursor);
    let mut n: usize = 0;
    let mut i: usize = 0;
    assert(text@.take(0) =~= Seq::<char>::empty());
    while i < k
        invariant
            i <= k <= chars@.len(),
            chars@ == text@,
            n == count_char(text@.take(i as int), '\n'),
            n <= i,
        decreases k - i,
    {
        assert(text@.take(i + 1).drop_last() =~= text@.take(i as int));
        if chars[i] == '\n' {
            n = n + 1;
        }
        i = i + 1;
    }
    n
}

/// On a line that wraps at `w` columns, the character `k` stands in the row and column in
/// which `k` cells come before it. The caret behind a line that fills its last row stays
/// on the last column of that row.
pub proof fn lemma_line_is_wrapped(line: Seq<char>, rest: Seq<char>, k: int, w: int)
    requires
        w >= 1,
        !line.contains('\n'),
        rest.len() == 0 || rest[0] == '\n',
        0 <= k <= line.len(),
    ensures
        ({
            let (row, col) = visual_position(line + rest, k, w);
            let full = k == line.len() && k > 0 && k % w == 0;
            &&& 0 <= row && 0 <= col < w
            &&& row * w + col == if full {
                k - 1
            } else {
                k
            }
        }),
{
    let s = line + rest;
    assert forall|i: int| 0 <= i < line.len() implies s[i] != '\n' by {
        assert(s[i] == line[i]);
    }
    crate::edit::lemma_line_start_is(s, 0, k);
    if rest.len() > 0 {
        assert(s[line.len() as int] == rest[0]);
    }
    crate::edit::lemma_line_end_is(s, k, line.len() as int);
    assert(0 <= k % w < w && k / w * w + k % w == k && 0 <= k / w) by (nonlinear_arith)
        requires
            w >= 1,
            k >= 0,
    ;
    let q = k / w;
    if k > 0 && k % w == 0 {
        assert(q >= 1) by (nonlinear_arith)
            requires
                q * w == k,
                k > 0,
                w >= 1,
        ;
        assert((q - 1) * w + (w - 1) == k - 1) by (nonlinear_arith)
            requires
                q * w == k,
        ;
    }
}

/// What stands behind a line is shown below it: as many rows lower as the line takes, and
/// one for a line that is empty.
pub proof fn lemma_lines_stand_below(line: Seq<char>, rest: Seq<char>, k: int, w: int)
    requires
        w >= 1,
        !line.contains('\n'),
        0 <= k <= rest.len(),
    ensures
        ({
            let n = line.len() as int;
            let (row, col) = visual_position(line + seq!['\n'] + rest, n + 1 + k, w);
            let below = visual_position(rest, k, w);
            let rows = row - below.0;
            &&& col == below.1
            &&& rows >= 1
            &&& rows * w >= n
            &&& n > 0 ==> (rows - 1) * w < n
            &&& n == 0 ==> rows == 1
        }),
{
    let n = line.len() as int;
    let s = line + seq!['\n'] + rest;
    lemma_line_start_below(line, rest, k);
    lemma_line_end_below(line, rest, k);
    lemma_line_start(rest, k);
    lemma_rows_below(line, rest, line_start(rest, k), w);
    let r = wrap_rows(n, w);
    assert(r >= 1 && r * w >= n && (n > 0 ==> (r - 1) * w < n)) by (nonlinear_arith)
        requires
            w >= 1,
            n >= 0,
            r == (if n == 0 {
                1
            } else if n % w == 0 {
                n / w
            } else {
                n / w + 1
            }),
    ;
}

proof fn lemma_line_start_below(line: Seq<char>, rest: Seq<char>, k: int)
    requires
        0 <= k <= rest.len(),
    ensures
        line_start(line + seq!['\n'] + rest, line.len() + 1 + k) == line.len() + 1 + line_start(
            rest,
            k,
        ),
    decreases k,
{
    let s = line + seq!['\n'] + rest;
    let n = line.len() as int;
    if k > 0 {
        assert(s[n + k] == rest[k - 1]);
        lemma_line_start_below(line, rest, k - 1);
    } else {
        assert(s[n] == '\n');
    }
}

proof fn lemma_line_end_below(line: Seq<char>, rest: Seq<char>, k: int)
    requires
        0 <= k <= rest.len(),
    ensures
        line_end(line + seq!['\n'] + rest, line.len() + 1 + k) == line.len() + 1 + line_end(
            rest,
            k,
        ),
    decreases rest.len() - k,
{
    let s = line + seq!['\n'] + rest;
    let n = line.len() as int;
    if k < rest.len() {
        assert(s[n + 1 + k] == rest[k]);
        lemma_line_end_below(line, rest, k + 1);
    }
}

proof fn lemma_rows_below(line: Seq<char>, rest: Seq<char>, j: int, w: int)
    requires
        w >= 1,
        !line.contains('\n'),
        0 <= j <= rest.len(),
    ensures
        rows_before(line + seq!['\n'] + rest, line.len() + 1 + j, w) == wrap_rows(
            line.len() as int,
            w,
        ) + rows_before(rest, j, w),
    decreases j,
{
    let s = line + seq!['\n'] + rest;
    let n = line.len() as int;
    if j > 0 {
        lemma_line_start_below(line, rest, j - 1);
        lemma_line_start(rest, j - 1);
        lemma_rows_below(line, rest, line_start(rest, j - 1), w);
    } else {
        assert forall|i: int| 0 <= i < n implies s[i] != '\n' by {
            assert(s[i] == line[i]);
        }
        crate::edit::lemma_line_start_is(s, 0, n);
        assert(rows_before(s, 0, w) == 0);
        assert(rows_before(rest, 0, w) == 0);
    }
}

} // verus!
