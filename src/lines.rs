//! The line index of a source text: its characters, the byte offset of each, and the
//! span of every line.

use vstd::prelude::*;
use vstd::utf8::*;
use vstd::string::StringSliceAdditionalSpecFns;
use crate::text::{
    byte_offset, chars_of, display_width, lemma_byte_offset_mono, lemma_byte_offset_step, utf8_len,
    width_of_range,
};

verus! {

/// One line of text as a half-open interval of character indices; `end` excludes the
/// line's `\n`.
#[derive(Clone, Copy, Debug, PartialEq, Eq, Structural)]
pub struct LineSpan {
    pub start: usize,
    pub end: usize,
}

/// Whether `lines` is the split of `s` at its `\n` characters, in order: every line,
/// terminated or not, with no empty line after a final `\n`.
pub open spec fn lines_wf(s: Seq<char>, lines: Seq<LineSpan>) -> bool {
    &&& (lines.len() == 0 <==> s.len() == 0)
    &&& lines.len() > 0 ==> lines[0].start == 0
    &&& forall|i: int| 0 <= i < lines.len() ==> line_wf(s, #[trigger] lines[i])
    &&& forall|i: int| 0 <= i < lines.len() - 1 ==> #[trigger] lines[i + 1].start == lines[i].end + 1
    &&& lines.len() > 0 ==> lines.last().end + 1 >= s.len()
    &&& lines.len() > 0 ==> lines.last().start < s.len()
}

/// `l` is a maximal run of characters of `s` without `\n`, ended by `\n` or the end of `s`.
pub open spec fn line_wf(s: Seq<char>, l: LineSpan) -> bool {
    &&& l.start <= l.end <= s.len()
    &&& forall|j: int| l.start <= j < l.end ==> #[trigger] s[j] != '\n'
    &&& l.end < s.len() ==> s[l.end as int] == '\n'
}

/// Source text split into lines while keeping track of the position of each line.
pub struct LinesWithPosition {
    /// The characters of the text.
    pub chars: Vec<char>,
    /// `offsets[i]` is the byte offset of character `i`; the last entry is the text's length.
    pub offsets: Vec<usize>,
    /// The lines of the text, in order.
    pub lines: Vec<LineSpan>,
}

impl LinesWithPosition {
    /// The characters, the byte offsets and the lines agree with each other.
    pub open spec fn wf(&self) -> bool {
        &&& self.offsets.len() == self.chars.len() + 1
        &&& forall|i: int| 0 <= i <= self.chars.len() ==> #[trigger] self.offsets[i] == byte_offset(self.chars@, i)
        &&& encode_utf8(self.chars@).len() <= usize::MAX
        &&& lines_wf(self.chars@, self.lines@)
    }

    /// Length of the text in bytes.
    pub open spec fn byte_len(&self) -> nat {
        encode_utf8(self.chars@).len()
    }

    /// Builds the line index of `code`.
    pub fn from(code: &str) -> (r: Self)
        ensures
            r.wf(),
            r.chars@ == code@,
    {
        let chars = chars_of(code);
        let bytes = code.as_bytes();
        let total = bytes.len();
        proof {
            assert(chars@.take(chars@.len() as int) =~= chars@);
            assert(code.spec_bytes() == encode_utf8(code@));
        }
        let mut offsets: Vec<usize> = Vec::new();
        offsets.push(0);
        proof {
            assert(chars@.take(0) =~= Seq::<char>::empty());
        }
        let mut i: usize = 0;
        while i < chars.len()
            invariant
                i <= chars.len(),
                chars@ == code@,
                total == encode_utf8(chars@).len(),
                offsets.len() == i + 1,
                forall|k: int| 0 <= k <= i ==> #[trigger] offsets[k] == byte_offset(chars@, k),
            decreases chars.len() - i,
        {
            proof {
                lemma_byte_offset_step(chars@, i as int);
                lemma_byte_offset_mono(chars@, i + 1, chars@.len() as int);
            }
            let next = offsets[i] + utf8_len(chars[i]);
            offsets.push(next);
            i = i + 1;
        }
        let lines = split_lines(&chars);
        LinesWithPosition { chars, offsets, lines }
    }
}

/// Number of `\n` characters in `s`.
pub open spec fn newlines(s: Seq<char>) -> nat
    decreases s.len(),
{
    if s.len() == 0 {
        0
    } else {
        newlines(s.drop_last()) + if s.last() == '\n' {
            1nat
        } else {
            0nat
        }
    }
}

/// Index of the first character of the line that holds character index `i`.
pub open spec fn line_start(s: Seq<char>, i: int) -> int
    decreases i,
{
    if i <= 0 {
        0
    } else if s[i - 1] == '\n' {
        i
    } else {
        line_start(s, i - 1)
    }
}

/// The largest character index `k' <= k` whose byte offset is at most `b`.
pub open spec fn char_index_from(s: Seq<char>, b: int, k: int) -> int
    decreases k,
{
    if k <= 0 {
        0
    } else if byte_offset(s, k) <= b {
        k
    } else {
        char_index_from(s, b, k - 1)
    }
}

/// Index of the character that holds byte offset `b` (the end of the text for `b` at or
/// past it).
pub open spec fn char_index_at(s: Seq<char>, b: int) -> int {
    char_index_from(s, b, s.len() as int)
}

/// 0-indexed (row, display column) of character index `i`.
pub open spec fn position_of_char(s: Seq<char>, i: int) -> (nat, nat) {
    (newlines(s.take(i)), display_width(s.subrange(line_start(s, i), i)))
}

/// 0-indexed (row, display column) of byte offset `b`.
pub open spec fn position_at(s: Seq<char>, b: int) -> (nat, nat) {
    position_of_char(s, char_index_at(s, b))
}

/// A line starts at or before any character index on it.
pub proof fn lemma_line_start_bounds(s: Seq<char>, i: int)
    requires
        0 <= i <= s.len(),
    ensures
        0 <= line_start(s, i) <= i,
    decreases i,
{
    if i > 0 && s[i - 1] != '\n' {
        lemma_line_start_bounds(s, i - 1);
    }
}

/// The character index found by scanning back from `k` is at most `k`.
pub proof fn lemma_char_index_from_bounds(s: Seq<char>, b: int, k: int)
    requires
        0 <= k <= s.len(),
    ensures
        0 <= char_index_from(s, b, k) <= k,
    decreases k,
{
    if k > 0 && byte_offset(s, k) > b {
        lemma_char_index_from_bounds(s, b, k - 1);
    }
}

/// A later byte offset never maps to an earlier character.
pub proof fn lemma_char_index_from_monotone(s: Seq<char>, a: int, b: int, k: int)
    requires
        a <= b,
        0 <= k <= s.len(),
    ensures
        char_index_from(s, a, k) <= char_index_from(s, b, k),
    decreases k,
{
    if k > 0 {
        lemma_char_index_from_monotone(s, a, b, k - 1);
        lemma_char_index_from_bounds(s, a, k - 1);
    }
}

/// A later byte offset never maps to an earlier character.
pub proof fn lemma_char_index_monotone(s: Seq<char>, a: int, b: int)
    requires
        a <= b,
    ensures
        char_index_at(s, a) <= char_index_at(s, b),
{
    lemma_char_index_from_monotone(s, a, b, s.len() as int);
}

/// A longer prefix holds at least as many newlines.
pub proof fn lemma_newlines_monotone(s: Seq<char>, a: int, b: int)
    requires
        0 <= a <= b <= s.len(),
    ensures
        newlines(s.take(a)) <= newlines(s.take(b)),
    decreases b - a,
{
    if a < b {
        assert(s.take(b).drop_last() =~= s.take(b - 1));
        lemma_newlines_monotone(s, a, b - 1);
    }
}

/// The character that holds byte `b` starts at or before `b`.
pub proof fn lemma_char_index_at_le(s: Seq<char>, b: int)
    requires
        0 <= b,
    ensures
        byte_offset(s, char_index_at(s, b)) <= b,
{
    lemma_char_index_from_le(s, b, s.len() as int);
}

/// The character found by scanning back from `k` starts at or before `b`.
proof fn lemma_char_index_from_le(s: Seq<char>, b: int, k: int)
    requires
        0 <= b,
        0 <= k <= s.len(),
    ensures
        byte_offset(s, char_index_from(s, b, k)) <= b,
    decreases k,
{
    if k <= 0 {
        assert(s.take(0) =~= Seq::<char>::empty());
    } else if byte_offset(s, k) > b {
        lemma_char_index_from_le(s, b, k - 1);
    }
}

impl LinesWithPosition {
    /// Index of the character that holds byte offset `b`.
    pub fn char_index_at_byte(&self, b: usize) -> (r: usize)
        requires
            self.wf(),
        ensures
            r == char_index_at(self.chars@, b as int),
            r <= self.chars.len(),
    {
        let mut k: usize = self.chars.len();
        while k > 0 && self.offsets[k] > b
            invariant
                self.wf(),
                k <= self.chars.len(),
                char_index_at(self.chars@, b as int) == char_index_from(self.chars@, b as int, k as int),
            decreases k,
        {
            k = k - 1;
        }
        k
    }

    /// 0-indexed (row, display column) of character index `ci`.
    pub fn position_of_char_index(&self, ci: usize) -> (r: (usize, usize))
        requires
            self.wf(),
            ci <= self.chars.len(),
        ensures
            r.0 <= ci,
            r.0 == position_of_char(self.chars@, ci as int).0,
            r.1 == position_of_char(self.chars@, ci as int).1,
    {
        let ghost s = self.chars@;
        let mut row: usize = 0;
        let mut ls: usize = 0;
        let mut k: usize = 0;
        while k < ci
            invariant
                self.wf(),
                s == self.chars@,
                k <= ci <= s.len(),
                row <= k,
                row == newlines(s.take(k as int)),
                ls == line_start(s, k as int),
                ls <= k,
            decreases ci - k,
        {
            assert(s.take(k + 1).drop_last() =~= s.take(k as int));
            if self.chars[k] == '\n' {
                row = row + 1;
                ls = k + 1;
            }
            k = k + 1;
        }
        let w = width_of_range(&self.chars, ls, ci);
        (row, w)
    }

    /// 0-indexed (row, display column) of byte offset `b`.
    pub fn position(&self, b: usize) -> (r: (usize, usize))
        requires
            self.wf(),
        ensures
            r.0 <= self.chars.len(),
            r.0 == position_at(self.chars@, b as int).0,
            r.1 == position_at(self.chars@, b as int).1,
    {
        let ci = self.char_index_at_byte(b);
        self.position_of_char_index(ci)
    }
}

/// Splits `chars` at its `\n` characters.
pub fn split_lines(chars: &Vec<char>) -> (r: Vec<LineSpan>)
    ensures
        lines_wf(chars@, r@),
{
    let n = chars.len();
    let mut lines: Vec<LineSpan> = Vec::new();
    let mut start: usize = 0;
    while start < n
        invariant
            n == chars.len(),
            start <= n,
            lines.len() == 0 <==> start == 0,
            lines.len() > 0 ==> lines[0].start == 0,
            forall|i: int| 0 <= i < lines.len() ==> line_wf(chars@, #[trigger] lines[i]),
            forall|i: int| 0 <= i < lines.len() - 1 ==> #[trigger] lines[i + 1].start == lines[i].end + 1,
            lines.len() > 0 ==> (lines@.last().end + 1 == start || (lines@.last().end == n && start == n)),
            lines.len() > 0 ==> lines@.last().start < n,
        decreases n - start + (if lines.len() == 0 { 1int } else { 0 }),
    {
        let mut end: usize = start;
        while end < n && chars[end] != '\n'
            invariant
                start <= end <= n == chars.len(),
                forall|j: int| start <= j < end ==> #[trigger] chars@[j] != '\n',
            decreases n - end,
        {
            end = end + 1;
        }
        let ghost old_lines = lines@;
        lines.push(LineSpan { start, end });
        proof {
            assert(lines@ == old_lines.push(LineSpan { start, end }));
            assert forall|i: int| 0 <= i < lines.len() - 1 implies #[trigger] lines[i + 1].start == lines[i].end + 1 by {
                if i + 1 < old_lines.len() {
                    assert(lines[i + 1] == old_lines[i + 1]);
                    assert(lines[i] == old_lines[i]);
                }
            }
        }
        if end < n {
            start = end + 1;
        } else {
            start = n;
        }
    }
    lines
}

} // verus!

verus! {

/// The first character index `j >= k` of line `l` at which the line has reached column
/// `col` (the line's end if it never does).
pub open spec fn first_reaching(s: Seq<char>, l: LineSpan, col: nat, k: int) -> int
    decreases l.end - k,
{
    if k >= l.end || display_width(s.subrange(l.start as int, k)) >= col {
        k
    } else {
        first_reaching(s, l, col, k + 1)
    }
}

/// Character index of column `col` of row `row`: the first place in the row that has
/// reached that column (the end of the text for a row past the last line).
pub open spec fn column_to_char(s: Seq<char>, lines: Seq<LineSpan>, row: int, col: nat) -> int {
    if 0 <= row < lines.len() {
        first_reaching(s, lines[row], col, lines[row].start as int)
    } else {
        s.len() as int
    }
}

impl LinesWithPosition {
    /// Byte offset of column `col` (a display column) of row `row`.
    pub fn byte_at_column(&self, row: usize, col: usize) -> (r: usize)
        requires
            self.wf(),
        ensures
            r == byte_offset(self.chars@, column_to_char(self.chars@, self.lines@, row as int, col as nat)),
    {
        if row >= self.lines.len() {
            return self.offsets[self.chars.len()];
        }
        let l = self.lines[row];
        let ghost s = self.chars@;
        assert(line_wf(s, self.lines@[row as int]));
        let mut k: usize = l.start;
        let mut w: usize = 0;
        assert(s.subrange(l.start as int, l.start as int) =~= Seq::<char>::empty());
        while k < l.end && w < col
            invariant
                self.wf(),
                s == self.chars@,
                l == self.lines@[row as int],
                l.start <= k <= l.end <= s.len(),
                w == display_width(s.subrange(l.start as int, k as int)),
                first_reaching(s, l, col as nat, l.start as int) == first_reaching(s, l, col as nat, k as int),
            decreases l.end - k,
        {
            let c = crate::text::columns_of(self.chars[k]);
            assert(s.subrange(l.start as int, k + 1).drop_last() =~= s.subrange(l.start as int, k as int));
            w = w.saturating_add(c);
            k = k + 1;
        }
        self.offsets[k]
    }
}

/// The row that holds character index `ci` is a line that starts where the row starts
/// and reaches at least to `ci`; only at the end of a text that ends with `\n` is the
/// row past the last line.
pub proof fn lemma_row_line(s: Seq<char>, lines: Seq<LineSpan>, ci: int)
    requires
        lines_wf(s, lines),
        0 <= ci <= s.len(),
    ensures
        newlines(s.take(ci)) < lines.len() ==> lines[newlines(s.take(ci)) as int].start == line_start(s, ci)
            && line_start(s, ci) <= ci <= lines[newlines(s.take(ci)) as int].end,
        newlines(s.take(ci)) >= lines.len() ==> newlines(s.take(ci)) == lines.len() && ci == s.len(),
        newlines(s.take(ci)) >= lines.len() && ci > 0 ==> s[ci - 1] == '\n',
    decreases ci,
{
    if ci == 0 {
        assert(s.take(0) =~= Seq::<char>::empty());
        if lines.len() > 0 {
            assert(line_wf(s, lines[0]));
        }
    } else {
        let p = ci - 1;
        lemma_row_line(s, lines, p);
        assert(s.take(ci).drop_last() =~= s.take(p));
        assert(s.take(ci).last() == s[p]);
        let r = newlines(s.take(p)) as int;
        assert(lines.len() > 0);
        assert(r < lines.len());
        assert(line_wf(s, lines[r]));
        if s[p] == '\n' {
            assert(p == lines[r].end);
            if r + 1 < lines.len() {
                assert(lines[r + 1].start == lines[r].end + 1);
                assert(line_wf(s, lines[r + 1]));
            } else {
                assert(lines.last() == lines[r]);
            }
        } else {
            if p == lines[r].end {
                assert(p < s.len());
            }
        }
    }
}

/// The first place that reaches a column comes no later than any place that does.
proof fn lemma_first_reaching_le(s: Seq<char>, l: LineSpan, col: nat, k: int, target: int)
    requires
        k <= target,
        target <= l.end,
        display_width(s.subrange(l.start as int, target)) >= col,
    ensures
        k <= first_reaching(s, l, col, k) <= target,
    decreases target - k,
{
    if !(k >= l.end || display_width(s.subrange(l.start as int, k)) >= col) {
        if k < target {
            lemma_first_reaching_le(s, l, col, k + 1, target);
        }
    }
}

/// A longer prefix of a line is at least as wide.
proof fn lemma_width_monotone(s: Seq<char>, lo: int, a: int, b: int)
    requires
        0 <= lo <= a <= b <= s.len(),
    ensures
        display_width(s.subrange(lo, a)) <= display_width(s.subrange(lo, b)),
    decreases b - a,
{
    if a < b {
        lemma_width_monotone(s, lo, a, b - 1);
        assert(s.subrange(lo, b).drop_last() =~= s.subrange(lo, b - 1));
    }
}

/// Where no earlier place reaches a column, the first place that does is `target`.
proof fn lemma_first_reaching_is(s: Seq<char>, l: LineSpan, col: nat, k: int, target: int)
    requires
        l.start <= k <= target <= l.end,
        display_width(s.subrange(l.start as int, target)) >= col,
        forall|j: int| k <= j < target ==> display_width(s.subrange(l.start as int, j)) < col,
    ensures
        first_reaching(s, l, col, k) == target,
    decreases target - k,
{
    if k < target {
        lemma_first_reaching_is(s, l, col, k + 1, target);
    }
}

/// Going from a byte offset to its (row, column) and back to the byte at that column of
/// that row never moves forward; it returns the same offset where the offset is a
/// character boundary, its column has not saturated, and the character before it on the
/// line takes up at least one column.
pub proof fn lemma_position_round_trip(idx: LinesWithPosition, b: usize)
    requires
        idx.wf(),
        b <= idx.byte_len(),
    ensures
        ({
            let s = idx.chars@;
            let pos = position_at(s, b as int);
            let back = byte_offset(s, column_to_char(s, idx.lines@, pos.0 as int, pos.1));
            let ci = char_index_at(s, b as int);
            let ls = line_start(s, ci);
            &&& back <= b
            &&& (byte_offset(s, ci) == b && pos.1 < usize::MAX
                && (ci == ls || crate::text::char_columns(s[ci - 1]) > 0)) ==> back == b
        }),
{
    let s = idx.chars@;
    let lines = idx.lines@;
    let ci = char_index_at(s, b as int);
    lemma_char_index_from_bounds(s, b as int, s.len() as int);
    lemma_char_index_at_le(s, b as int);
    let row = newlines(s.take(ci)) as int;
    let ls = line_start(s, ci);
    lemma_line_start_bounds(s, ci);
    let col = display_width(s.subrange(ls, ci));
    lemma_row_line(s, lines, ci);
    if row < lines.len() {
        let l = lines[row];
        lemma_first_reaching_le(s, l, col, l.start as int, ci);
        let k = first_reaching(s, l, col, l.start as int);
        crate::text::lemma_byte_offset_mono(s, k, ci);
        if byte_offset(s, ci) == b && col < usize::MAX && (ci == ls || crate::text::char_columns(s[ci - 1]) > 0) {
            if ci > ls {
                assert(s.subrange(ls, ci).drop_last() =~= s.subrange(ls, ci - 1));
                assert forall|j: int| ls <= j < ci implies display_width(s.subrange(l.start as int, j)) < col by {
                    lemma_width_monotone(s, ls, j, ci - 1);
                }
            }
            lemma_first_reaching_is(s, l, col, l.start as int, ci);
        }
    } else {
        assert(ci == s.len());
        assert(s.take(s.len() as int) =~= s);
    }
}

} // verus!

verus! {

/// Earlier lines end before later lines start.
pub proof fn lemma_lines_ordered(s: Seq<char>, lines: Seq<LineSpan>, i: int, j: int)
    requires
        lines_wf(s, lines),
        0 <= i < j < lines.len(),
    ensures
        lines[i].end < lines[j].start,
    decreases j - i,
{
    assert(line_wf(s, lines[j - 1]));
    assert(lines[(j - 1) + 1].start == lines[j - 1].end + 1);
    if i < j - 1 {
        lemma_lines_ordered(s, lines, i, j - 1);
    }
}

/// A character index on line `i` is on row `i`, and its line starts where line `i` does.
pub proof fn lemma_position_in_line(s: Seq<char>, lines: Seq<LineSpan>, i: int, ci: int)
    requires
        lines_wf(s, lines),
        0 <= i < lines.len(),
        lines[i].start <= ci <= lines[i].end,
    ensures
        newlines(s.take(ci)) == i,
        line_start(s, ci) == lines[i].start,
{
    assert(line_wf(s, lines[i]));
    lemma_row_line(s, lines, ci);
    let r = newlines(s.take(ci)) as int;
    if r < lines.len() {
        assert(line_wf(s, lines[r]));
        if r < i {
            lemma_lines_ordered(s, lines, r, i);
        } else if r > i {
            lemma_lines_ordered(s, lines, i, r);
        }
    } else {
        // `ci` is the end of a text that ends in a newline, yet it lies on line `i`.
        assert(ci == s.len());
        assert(lines[i].end == s.len());
        if i + 1 < lines.len() {
            lemma_lines_ordered(s, lines, i, i + 1);
            assert(line_wf(s, lines[i + 1]));
        }
        assert(i == lines.len() - 1);
        assert(lines.last().start < s.len());
        assert(s[s.len() - 1] != '\n');
    }
}

/// Byte offsets strictly grow with the character index.
pub proof fn lemma_byte_offset_strict(s: Seq<char>, i: int, j: int)
    requires
        0 <= i < j <= s.len(),
    ensures
        byte_offset(s, i) < byte_offset(s, j),
    decreases j - i,
{
    lemma_byte_offset_step(s, j - 1);
    let c = s[j - 1];
    assert(encode_scalar(c as u32).len() >= 1);
    if i < j - 1 {
        lemma_byte_offset_strict(s, i, j - 1);
    }
}

/// The byte offset of a character maps back to that character.
pub proof fn lemma_char_index_of_offset(s: Seq<char>, ci: int)
    requires
        0 <= ci <= s.len(),
    ensures
        char_index_at(s, byte_offset(s, ci) as int) == ci,
{
    lemma_char_index_from_offset(s, ci, s.len() as int);
}

proof fn lemma_char_index_from_offset(s: Seq<char>, ci: int, k: int)
    requires
        0 <= ci <= k <= s.len(),
    ensures
        char_index_from(s, byte_offset(s, ci) as int, k) == ci,
    decreases k,
{
    if k > ci {
        lemma_byte_offset_strict(s, ci, k);
        lemma_char_index_from_offset(s, ci, k - 1);
    } else if k <= 0 {
    }
}

/// Positions never go backward: a later byte offset has a (row, column) at least as
/// large, in row-then-column order.
pub proof fn lemma_positions_ordered(idx: LinesWithPosition, a: int, b: int)
    requires
        idx.wf(),
        0 <= a <= b,
    ensures
        ({
            let p = position_at(idx.chars@, a);
            let q = position_at(idx.chars@, b);
            p.0 < q.0 || (p.0 == q.0 && p.1 <= q.1)
        }),
{
    let s = idx.chars@;
    let lines = idx.lines@;
    let ca = char_index_at(s, a);
    let cb = char_index_at(s, b);
    lemma_char_index_monotone(s, a, b);
    lemma_char_index_from_bounds(s, a, s.len() as int);
    lemma_char_index_from_bounds(s, b, s.len() as int);
    lemma_newlines_monotone(s, ca, cb);
    if newlines(s.take(ca)) == newlines(s.take(cb)) {
        lemma_row_line(s, lines, ca);
        lemma_row_line(s, lines, cb);
        let r = newlines(s.take(ca)) as int;
        if r < lines.len() {
            lemma_line_start_bounds(s, ca);
            lemma_width_monotone(s, line_start(s, ca), ca, cb);
        }
    }
}

/// At the end of a text that ends with a newline, the position is the start of the
/// row after the last line.
pub proof fn lemma_end_after_newline(idx: LinesWithPosition)
    requires
        idx.wf(),
        idx.chars.len() > 0,
        idx.chars@.last() == '\n',
    ensures
        position_at(idx.chars@, idx.byte_len() as int) == (idx.lines.len() as nat, 0nat),
{
    let s = idx.chars@;
    let lines = idx.lines@;
    let n = s.len() as int;
    assert(s.take(n) =~= s);
    assert(char_index_at(s, idx.byte_len() as int) == n);
    assert(line_start(s, n) == n);
    assert(s.subrange(n, n) =~= Seq::<char>::empty());
    lemma_row_line(s, lines, n);
    let r = newlines(s.take(n)) as int;
    if r < lines.len() {
        if r < lines.len() - 1 {
            lemma_lines_ordered(s, lines, r, lines.len() - 1);
            assert(line_wf(s, lines[r]));
        }
        assert(lines[r].start == n);
        assert(lines.last().start < s.len());
    }
}

/// The position of a character on line `i` is row `i`, at the width of the line up to it.
pub proof fn lemma_position_on_line(idx: LinesWithPosition, i: int, ci: int)
    requires
        idx.wf(),
        0 <= i < idx.lines.len(),
        idx.lines@[i].start <= ci <= idx.lines@[i].end,
    ensures
        position_at(idx.chars@, byte_offset(idx.chars@, ci) as int)
            == (i as nat, display_width(idx.chars@.subrange(idx.lines@[i].start as int, ci))),
{
    let s = idx.chars@;
    assert(line_wf(s, idx.lines@[i]));
    lemma_char_index_of_offset(s, ci);
    lemma_position_in_line(s, idx.lines@, i, ci);
}

} // verus!
