//! Rule III:E: lines must not have trailing whitespace.

use vstd::prelude::*;
use crate::diagnostic::{Diagnostic, RuleDescription, Span};
use crate::lines::LineSpan;
use crate::rules::{char_range, indices_where, lemma_indices_where_bounds};
use crate::source::SourceInfo;
use crate::text::{byte_offset, display_width, trailing_ws, trailing_ws_in};

verus! {

/// Number of whitespace characters at the end of line `l`.
pub open spec fn trailing_len(s: Seq<char>, l: LineSpan) -> int {
    trailing_ws(s.subrange(l.start as int, l.end as int)) as int
}

/// The lines that end in whitespace, in order.
pub open spec fn trailing_lines(s: Seq<char>, lines: Seq<LineSpan>) -> Seq<int> {
    indices_where(lines.len() as int, |i: int| trailing_len(s, lines[i]) > 0)
}

/// The trailing-whitespace rule does not fire on an empty line.
pub proof fn lemma_empty_line_not_reported(s: Seq<char>, lines: Seq<LineSpan>, i: int)
    requires
        crate::lines::lines_wf(s, lines),
        0 <= i < lines.len(),
        lines[i].start == lines[i].end,
    ensures
        !trailing_lines(s, lines).contains(i),
{
    assert(crate::lines::line_wf(s, lines[i]));
    assert(s.subrange(lines[i].start as int, lines[i].end as int).len() == 0);
    crate::rules::lemma_indices_where_contains(lines.len() as int, |k: int| trailing_len(s, lines[k]) > 0, i);
}

/// Each trailing-whitespace diagnostic sits on the row of its line, from the width of
/// the line without its trailing whitespace to the width of the whole line.
pub proof fn lemma_trailing_whitespace_positions(source: SourceInfo, r: Seq<Diagnostic>, k: int)
    requires
        source.wf(),
        (Rule03e {}).checked(source, r),
        0 <= k < r.len(),
    ensures
        ({
            let s = source.text();
            let lines = source.index.lines@;
            let i = trailing_lines(s, lines)[k];
            let l = lines[i];
            let v = r[k].violations[0].range;
            &&& v.start_pos.0 == i && v.start_pos.1 == display_width(s.subrange(l.start as int, l.end - trailing_len(s, l)))
            &&& v.end_pos.0 == i && v.end_pos.1 == display_width(s.subrange(l.start as int, l.end as int))
        }),
{
    let s = source.text();
    let lines = source.index.lines@;
    lemma_indices_where_bounds(lines.len() as int, |i: int| trailing_len(s, lines[i]) > 0);
    let i = trailing_lines(s, lines)[k];
    let l = lines[i];
    assert(crate::lines::line_wf(s, l));
    crate::text::lemma_trailing_ws_bound(s.subrange(l.start as int, l.end as int));
    crate::lines::lemma_position_on_line(source.index, i, l.end - trailing_len(s, l));
    crate::lines::lemma_position_on_line(source.index, i, l.end as int);
}

/// Rule III:E.
pub struct Rule03e {}

impl Rule03e {
    /// The rule's description.
    pub open spec fn description() -> RuleDescription {
        RuleDescription {
            group_number: 3,
            letter: 'E',
            code: "III:E",
            name: "TrailingWhitespace",
            description: "lines must not have trailing whitespace",
        }
    }

    /// Returns the rule's description.
    pub fn describe(&self) -> (r: RuleDescription)
        ensures
            r == Self::description(),
    {
        RuleDescription {
            group_number: 3,
            letter: 'E',
            code: "III:E",
            name: "TrailingWhitespace",
            description: "lines must not have trailing whitespace",
        }
    }

    /// What `check` returns on `source`.
    pub open spec fn checked(&self, source: SourceInfo, r: Seq<Diagnostic>) -> bool {
        &&& r.len() == trailing_lines(source.text(), source.index.lines@).len()
        &&& forall|k: int| 0 <= k < r.len() ==> {
            let d = #[trigger] r[k];
            let l = source.index.lines@[trailing_lines(source.text(), source.index.lines@)[k]];
            &&& d.rule == Self::description()
            &&& d.ranges_consistent_with(source.text())
            &&& d.violations.len() == 1
            &&& d.references.len() == 0
            &&& d.violations[0].range.bytes.start == byte_offset(source.text(), l.end - trailing_len(source.text(), l))
            &&& d.violations[0].range.bytes.end == byte_offset(source.text(), l.end as int)
            &&& d.message@ == "Line contains trailing whitespace"@
                &&& d.plain()
        }
    }

    /// One diagnostic per line that ends in whitespace, in order, with one violation
    /// over that whitespace.
    pub fn check(&self, source: &SourceInfo) -> (r: Vec<Diagnostic>)
        requires
            source.wf(),
        ensures
            self.checked(*source, r@),
            r.len() == trailing_lines(source.text(), source.index.lines@).len(),
            forall|k: int| 0 <= k < r.len() ==> {
                let d = #[trigger] r[k];
                let l = source.index.lines@[trailing_lines(source.text(), source.index.lines@)[k]];
                &&& d.rule == Self::description()
                &&& d.ranges_consistent_with(source.text())
                &&& d.violations.len() == 1
                &&& d.references.len() == 0
                &&& d.violations[0].range.bytes.start == byte_offset(source.text(), l.end - trailing_len(source.text(), l))
                &&& d.violations[0].range.bytes.end == byte_offset(source.text(), l.end as int)
                &&& d.message@ == "Line contains trailing whitespace"@
                &&& d.plain()
            },
    {
        let ghost s = source.text();
        let ghost lines = source.index.lines@;
        let ghost p = |i: int| trailing_len(s, lines[i]) > 0;
        let mut diags: Vec<Diagnostic> = Vec::new();
        let mut i: usize = 0;
        while i < source.index.lines.len()
            invariant
                source.wf(),
                s == source.text(),
                lines == source.index.lines@,
                i <= lines.len(),
                p == (|i: int| trailing_len(s, lines[i]) > 0),
                diags.len() == indices_where(i as int, p).len(),
                forall|k: int| 0 <= k < diags.len() ==> {
                    let d = #[trigger] diags[k];
                    let l = lines[indices_where(i as int, p)[k]];
                    &&& d.rule == Self::description()
                    &&& d.ranges_consistent_with(s)
                    &&& d.violations.len() == 1
                    &&& d.references.len() == 0
                    &&& d.violations[0].range.bytes.start == byte_offset(s, l.end - trailing_len(s, l))
                    &&& d.violations[0].range.bytes.end == byte_offset(s, l.end as int)
                    &&& d.message@ == "Line contains trailing whitespace"@
                &&& d.plain()
                },
            decreases lines.len() - i,
        {
            let l = source.index.lines[i];
            assert(crate::lines::line_wf(s, lines[i as int]));
            let t = trailing_ws_in(&source.index.chars, l.start, l.end);
            if t > 0 {
                let range = char_range(source, l.end - t, l.end);
                let d = Diagnostic::new(self.describe(), "Line contains trailing whitespace".to_owned())
                    .with_violation(Span::new(source.filename.as_str(), range, String::new()));
                diags.push(d);
            }
            i = i + 1;
        }
        proof {
            lemma_indices_where_bounds(lines.len() as int, p);
        }
        diags
    }
}

} // verus!
