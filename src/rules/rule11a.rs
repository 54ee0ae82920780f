//! Rule XI:A: do not use tabs for indentation.

use vstd::prelude::*;
use crate::diagnostic::{Diagnostic, RuleDescription, Span};
use crate::lines::LineSpan;
use crate::rules::{is_limited, char_range, indices_where, kept, lemma_indices_where_bounds, limit_diagnostics};
use crate::source::{decimal, SourceInfo};
use crate::text::{byte_offset, leading_ws, leading_ws_in};

verus! {

/// Number of indentation characters of line `l`.
pub open spec fn indent_len(s: Seq<char>, l: LineSpan) -> int {
    leading_ws(s.subrange(l.start as int, l.end as int)) as int
}

/// Offsets, within line `l`, of the tabs in its indentation, in order.
pub open spec fn indent_tabs(s: Seq<char>, l: LineSpan) -> Seq<int> {
    indices_where(indent_len(s, l), |j: int| s[l.start + j] == '\t')
}

/// Whether the indentation of line `l` holds a tab.
pub open spec fn indent_has_tab(s: Seq<char>, l: LineSpan) -> bool {
    indent_tabs(s, l).len() > 0
}

/// Whether the indentation of line `l` is tabs only.
pub open spec fn indent_all_tabs(s: Seq<char>, l: LineSpan) -> bool {
    indent_tabs(s, l).len() == indent_len(s, l)
}

/// The lines whose indentation holds a tab, in order.
pub open spec fn tab_lines(s: Seq<char>, lines: Seq<LineSpan>) -> Seq<int> {
    indices_where(lines.len() as int, |i: int| indent_has_tab(s, lines[i]))
}

/// What the diagnostic `d` for line `l` reports: the whole indentation where it is
/// tabs only, else each of its tabs.
pub open spec fn reports_tabs_of(d: Diagnostic, s: Seq<char>, l: LineSpan) -> bool {
    let tabs = indent_tabs(s, l);
    &&& d.rule == Rule11a::description()
    &&& d.ranges_consistent_with(s)
    &&& d.references.len() == 0
    &&& d.message@ == "Use spaces instead of tabs for indentation"@
    &&& d.suggestion is None
    &&& forall|m: int| 0 <= m < d.violations.len() ==> (#[trigger] d.violations[m]).label@
        == if indent_all_tabs(s, l) { "Indentation uses tabs"@ } else { "Tab character found here"@ }
    &&& d.notes.len() >= tab_notes(s, l)
    &&& !indent_all_tabs(s, l) ==> d.notes[0]@ == "Line mixes spaces and tabs"@
    &&& if indent_all_tabs(s, l) {
        &&& d.violations.len() == 1
        &&& d.violations[0].range.bytes.start == byte_offset(s, l.start as int)
        &&& d.violations[0].range.bytes.end == byte_offset(s, l.start + indent_len(s, l))
    } else {
        &&& d.violations.len() == tabs.len()
        &&& forall|m: int| 0 <= m < tabs.len() ==> (#[trigger] d.violations[m]).range.bytes.start
            == byte_offset(s, l.start + tabs[m]) && d.violations[m].range.bytes.end
            == byte_offset(s, l.start + tabs[m]) + 1
    }
}

/// Number of notes on the diagnostic for line `l`: one where the indentation mixes
/// tabs with other whitespace.
pub open spec fn tab_notes(s: Seq<char>, l: LineSpan) -> int {
    if indent_all_tabs(s, l) { 0 } else { 1 }
}

/// Note telling how many more lines held tabs past the bound.
pub open spec fn tab_rest() -> Seq<char> {
    " more lines contain tabs, but those warnings are suppressed to avoid noise."@
}

/// Rule XI:A.
pub struct Rule11a {
    pub max_diagnostics: Option<usize>,
}

impl Rule11a {
    /// Constructs the rule. `max_diagnostics` bounds the number of diagnostics: past
    /// it, the last one kept notes how many more were found.
    pub fn new(max_diagnostics: Option<usize>) -> (r: Self)
        ensures
            r.max_diagnostics == max_diagnostics,
    {
        Rule11a { max_diagnostics }
    }

    /// The rule's description.
    pub open spec fn description() -> RuleDescription {
        RuleDescription {
            group_number: 11,
            letter: 'A',
            code: "XI:A",
            name: "NoTabs",
            description: "do not use tabs for indentation",
        }
    }

    /// Returns the rule's description.
    pub fn describe(&self) -> (r: RuleDescription)
        ensures
            r == Self::description(),
    {
        RuleDescription {
            group_number: 11,
            letter: 'A',
            code: "XI:A",
            name: "NoTabs",
            description: "do not use tabs for indentation",
        }
    }

    /// The diagnostic for line `l`, if its indentation holds a tab.
    fn check_line(&self, source: &SourceInfo, l: LineSpan) -> (r: Option<Diagnostic>)
        requires
            source.wf(),
            l.start <= l.end <= source.text().len(),
        ensures
            r is Some <==> indent_has_tab(source.text(), l),
            r matches Some(d) ==> reports_tabs_of(d, source.text(), l) && d.notes.len() == tab_notes(source.text(), l),
    {
        let ghost s = source.text();
        let ghost p = |j: int| s[l.start + j] == '\t';
        let chars = &source.index.chars;
        let w = leading_ws_in(chars, l.start, l.end);
        let mut spans: Vec<Span> = Vec::new();
        let mut j: usize = 0;
        while j < w
            invariant
                source.wf(),
                s == source.text(),
                chars == &source.index.chars,
                l.start <= l.end <= s.len(),
                w == indent_len(s, l),
                w <= l.end - l.start,
                j <= w,
                p == (|j: int| s[l.start + j] == '\t'),
                spans.len() == indices_where(j as int, p).len(),
                forall|m: int| 0 <= m < spans.len() ==> {
                    let t = indices_where(j as int, p)[m];
                    &&& (#[trigger] spans[m]).range.consistent_with(s)
                    &&& spans[m].range.bytes.start == byte_offset(s, l.start + t)
                    &&& spans[m].range.bytes.end == byte_offset(s, l.start + t) + 1
                    &&& spans[m].label@ == "Tab character found here"@
                },
            decreases w - j,
        {
            if chars[l.start + j] == '\t' {
                proof {
                    crate::text::lemma_byte_offset_step(s, l.start + j);
                }
                let range = char_range(source, l.start + j, l.start + j + 1);
                spans.push(Span::new(source.filename.as_str(), range, "Tab character found here".to_owned()));
            }
            proof {
                assert(p(j as int) == (s[l.start + j] == '\t'));
            }
            j = j + 1;
        }
        proof {
            lemma_indices_where_bounds(w as int, p);
        }
        if spans.len() == 0 {
            None
        } else if spans.len() == w {
            let range = char_range(source, l.start, l.start + w);
            let d = Diagnostic::new(self.describe(), "Use spaces instead of tabs for indentation".to_owned())
                .with_violation(Span::new(source.filename.as_str(), range, "Indentation uses tabs".to_owned()));
            Some(d)
        } else {
            let d = Diagnostic::new(self.describe(), "Use spaces instead of tabs for indentation".to_owned())
                .with_violations(spans)
                .with_note("Line mixes spaces and tabs".to_owned());
            Some(d)
        }
    }

    /// What `check` returns on `source`: one diagnostic per line whose indentation
    /// holds a tab, in order, at most `max_diagnostics` of them; where more were found,
    /// the last one kept notes how many more.
    pub open spec fn checked(&self, source: SourceInfo, r: Seq<Diagnostic>) -> bool {
        let s = source.text();
        let lines = source.index.lines@;
        let n = tab_lines(s, lines).len();
        &&& r.len() == kept(n, self.max_diagnostics)
        &&& forall|k: int| 0 <= k < r.len() ==> {
            let d = #[trigger] r[k];
            let l = lines[tab_lines(s, lines)[k]];
            let noted = is_limited(n, self.max_diagnostics) && k == r.len() - 1;
            &&& reports_tabs_of(d, s, l)
            &&& d.notes.len() == tab_notes(s, l) + if noted { 1int } else { 0int }
            &&& noted ==> d.notes@.last()@ == decimal((n - r.len()) as nat) + tab_rest()
        }
    }

    /// One diagnostic per line whose indentation holds a tab, in order; at most
    /// `max_diagnostics` of them.
    pub fn check(&self, source: &SourceInfo) -> (r: Vec<Diagnostic>)
        requires
            source.wf(),
        ensures
            self.checked(*source, r@),
            forall|k: int| 0 <= k < r.len() ==> (#[trigger] r[k]).rule == Self::description()
                && r[k].ranges_consistent_with(source.text()),
    {
        let ghost s = source.text();
        let ghost lines = source.index.lines@;
        let ghost p = |i: int| indent_has_tab(s, lines[i]);
        let mut diags: Vec<Diagnostic> = Vec::new();
        let mut i: usize = 0;
        while i < source.index.lines.len()
            invariant
                source.wf(),
                s == source.text(),
                lines == source.index.lines@,
                i <= lines.len(),
                p == (|i: int| indent_has_tab(s, lines[i])),
                diags.len() == indices_where(i as int, p).len(),
                forall|m: int| 0 <= m < diags.len() ==> reports_tabs_of(#[trigger] diags[m], s,
                    lines[indices_where(i as int, p)[m]]) && diags[m].notes.len() == tab_notes(s, lines[indices_where(i as int, p)[m]]),
            decreases lines.len() - i,
        {
            let l = source.index.lines[i];
            assert(crate::lines::line_wf(s, lines[i as int]));
            match self.check_line(source, l) {
                Some(d) => {
                    diags.push(d);
                },
                None => {},
            }
            i = i + 1;
        }
        let ghost found = diags@;
        let r = limit_diagnostics(diags, self.max_diagnostics, " more lines contain tabs, but those warnings are suppressed to avoid noise.");
        proof {
            lemma_indices_where_bounds(lines.len() as int, p);
            assert forall|k: int| 0 <= k < r.len() implies reports_tabs_of(#[trigger] r[k], s,
                lines[tab_lines(s, lines)[k]]) && r[k].notes.len() == tab_notes(s, lines[tab_lines(s, lines)[k]])
                + if is_limited(found.len() as nat, self.max_diagnostics) && k == r.len() - 1 { 1int } else { 0int } by {
                let l = lines[tab_lines(s, lines)[k]];
                assert(reports_tabs_of(found[k], s, l));
                if k < r.len() - 1 || !is_limited(found.len() as nat, self.max_diagnostics) {
                    assert(r[k] == found[k]);
                } else {
                    assert(r@.last() == r[k]);
                    if !indent_all_tabs(s, l) {
                        assert(r[k].notes@.take(found[k].notes.len() as int)[0] == found[k].notes@[0]);
                    }
                }
            }
        }
        r
    }
}

} // verus!
