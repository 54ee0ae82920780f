//! Rule III:D: `#define` statements must be grouped together, placed before the
//! functions, and set off by blank lines.

use vstd::prelude::*;
use std::ops::Range;
use crate::collapse::{collapse_ranges, collapse_spec};
use crate::rules::indices_where;
use crate::rules::rule12a::node_text_spec;
use crate::syntax::SyntaxTree;
use crate::diagnostic::{Diagnostic, RuleDescription, SourceRange, Span};
use crate::lines::{char_index_at, newlines, LineSpan};
use crate::source::{push_str, SourceInfo};
use crate::text::byte_offset;

verus! {

/// Whether line `l` is blank: empty, or a lone `\r` before its `\n`.
pub open spec fn is_blank(s: Seq<char>, l: LineSpan) -> bool {
    l.start == l.end || (l.end == l.start + 1 && s[l.start as int] == '\r')
}

/// Whether a group that starts at character `lo` has a blank line before it; a group
/// on the first line needs none.
pub open spec fn blank_before(s: Seq<char>, lines: Seq<LineSpan>, lo: int) -> bool {
    let row = newlines(s.take(lo)) as int;
    row == 0 || (row - 1 < lines.len() && is_blank(s, lines[row - 1]))
}

/// The line after a group that ends at character `hi`: the line that `hi` starts, or
/// the one after the line that holds it.
pub open spec fn line_after(s: Seq<char>, hi: int) -> int {
    let row = newlines(s.take(hi)) as int;
    if hi == 0 || s[hi - 1] == '\n' {
        row
    } else {
        row + 1
    }
}

/// Whether a group that ends at character `hi` has a blank line after it; a group on
/// the last line needs none.
pub open spec fn blank_after(s: Seq<char>, lines: Seq<LineSpan>, hi: int) -> bool {
    let next = line_after(s, hi);
    next >= lines.len() || is_blank(s, lines[next])
}

/// Character range `lo..hi` without a trailing `\n` or `\r\n`.
pub open spec fn trimmed_end(s: Seq<char>, lo: int, hi: int) -> int {
    if hi - lo >= 2 && s[hi - 2] == '\r' && s[hi - 1] == '\n' {
        hi - 2
    } else if hi - lo >= 1 && s[hi - 1] == '\n' {
        hi - 1
    } else {
        hi
    }
}

/// A group of `#define` statements on the first line of a file needs no blank line
/// before it, and one that reaches the end of the file needs none after it.
pub proof fn lemma_define_at_file_edges(s: Seq<char>, lines: Seq<LineSpan>, lo: int, hi: int)
    requires
        crate::lines::lines_wf(s, lines),
        0 <= lo <= hi <= s.len(),
    ensures
        newlines(s.take(lo)) == 0 ==> blank_before(s, lines, lo),
        hi == s.len() ==> blank_after(s, lines, hi),
{
    if hi == s.len() {
        crate::lines::lemma_row_line(s, lines, hi);
        let row = newlines(s.take(hi)) as int;
        if row < lines.len() && !(hi == 0 || s[hi - 1] == '\n') {
            let l = lines[row];
            assert(crate::lines::line_wf(s, l));
            if row + 1 < lines.len() {
                assert(lines[row + 1].start == l.end + 1);
                assert(crate::lines::line_wf(s, lines[row + 1]));
            }
        }
    }
}

/// End of the byte range `a..b` without a trailing `\n` or `\r\n`.
pub open spec fn trimmed_end_bytes(s: Seq<char>, a: int, b: int) -> int {
    let lo = char_index_at(s, a);
    let hi = char_index_at(s, b);
    if byte_offset(s, hi) == b && trimmed_end(s, lo, hi) < hi && byte_offset(s, trimmed_end(s, lo, hi)) >= a {
        byte_offset(s, trimmed_end(s, lo, hi)) as int
    } else {
        b
    }
}

/// Whether node `i` is a `#define` statement (of a constant or of a macro).
pub open spec fn is_define(t: SyntaxTree, i: int) -> bool {
    t.kind_is_spec(i, "preproc_def"@) || t.kind_is_spec(i, "preproc_function_def"@)
}

/// Byte ranges of the `#define` statements before node `n` (only those outside every
/// function where `global`), in order.
pub open spec fn define_ranges(t: SyntaxTree, n: int, global: bool) -> Seq<(usize, usize)>
    decreases n,
{
    if n <= 0 {
        Seq::empty()
    } else if is_define(t, n - 1) && (!global || !t.has_ancestor_spec(n - 1, "function_definition"@)) {
        define_ranges(t, n - 1, global).push((t.nodes[n - 1].start, t.nodes[n - 1].end))
    } else {
        define_ranges(t, n - 1, global)
    }
}

/// The first function definition among the nodes before `n`.
pub open spec fn first_definition(t: SyntaxTree, n: int) -> Option<int>
    decreases n,
{
    if n <= 0 {
        None
    } else {
        match first_definition(t, n - 1) {
            Some(f) => Some(f),
            None => if t.kind_is_spec(n - 1, "function_definition"@) { Some(n - 1) } else { None },
        }
    }
}

/// The groups of `#define` statements of the tree (only those outside the functions
/// where `global`).
pub open spec fn define_groups(t: SyntaxTree, global: bool) -> Seq<(usize, usize)> {
    collapse_spec(define_ranges(t, t.nodes.len() as int, global))
}

/// Number of top-level grouping diagnostics: one where there is more than one
/// top-level group.
pub open spec fn top_grouping_count(t: SyntaxTree) -> int {
    if define_groups(t, true).len() > 1 { 1 } else { 0 }
}

/// The groups that start after byte `end`, by index.
pub open spec fn groups_after(groups: Seq<(usize, usize)>, end: usize) -> Seq<int> {
    indices_where(groups.len() as int, |g: int| end < groups[g].0)
}

/// The top-level groups that start after the end of the first function, by index.
pub open spec fn misplaced_groups(t: SyntaxTree) -> Seq<int> {
    match first_definition(t, t.nodes.len() as int) {
        Some(f) => groups_after(define_groups(t, true), t.nodes[f].end),
        None => Seq::empty(),
    }
}

/// The blank-line problems of the groups `groups[..n]`: a group index with `true` for
/// a missing blank line before it and `false` for one after it.
pub open spec fn blank_findings(s: Seq<char>, lines: Seq<LineSpan>, groups: Seq<(usize, usize)>, n: int) -> Seq<(int, bool)>
    decreases n,
{
    if n <= 0 {
        Seq::empty()
    } else {
        let g = groups[n - 1];
        let lo = char_index_at(s, g.0 as int);
        let hi = char_index_at(s, g.1 as int);
        blank_findings(s, lines, groups, n - 1)
            + (if !blank_before(s, lines, lo) { seq![(n - 1, true)] } else { Seq::empty() })
            + (if !blank_after(s, lines, hi) { seq![(n - 1, false)] } else { Seq::empty() })
    }
}

/// The groups of `groups` that lie within bytes `lo..hi`, in order.
pub open spec fn groups_within(groups: Seq<(usize, usize)>, lo: usize, hi: usize) -> Seq<(usize, usize)>
    decreases groups.len(),
{
    if groups.len() == 0 {
        Seq::empty()
    } else if groups.last().0 >= lo && groups.last().1 <= hi {
        groups_within(groups.drop_last(), lo, hi).push(groups.last())
    } else {
        groups_within(groups.drop_last(), lo, hi)
    }
}

/// The groups that lie within the body of function definition `f`.
pub open spec fn groups_in_body(t: SyntaxTree, f: int) -> Seq<(usize, usize)> {
    match t.child_by_field_spec(f, "body"@) {
        Some(b) => groups_within(define_groups(t, false), t.nodes[b].start, t.nodes[b].end),
        None => Seq::empty(),
    }
}

/// The note on the grouping diagnostic of function definition `f`: its name.
pub open spec fn function_note(s: Seq<char>, t: SyntaxTree, f: int) -> Seq<char> {
    let name = match t.function_name_spec(f) {
        Some(n) => node_text_spec(s, t, n),
        None => Seq::empty(),
    };
    "In function `"@ + name + "()'"@
}

/// The function definitions whose bodies hold more than one group, in document order.
pub open spec fn split_functions(t: SyntaxTree) -> Seq<int> {
    indices_where(t.nodes.len() as int, |f: int| t.kind_is_spec(f, "function_definition"@) && groups_in_body(t, f).len() > 1)
}

/// Whether `d` references the first of `groups` and reports each later one, each
/// without its final newline.
pub open spec fn reports_grouping(d: Diagnostic, s: Seq<char>, groups: Seq<(usize, usize)>) -> bool {
    &&& d.rule == Rule3d::description()
    &&& d.ranges_consistent_with(s)
    &&& d.references.len() == 1
    &&& d.references[0].range.bytes.start == groups[0].0
    &&& d.references[0].range.bytes.end == trimmed_end_bytes(s, groups[0].0 as int, groups[0].1 as int)
    &&& d.references[0].label@ == "First group of #define statements found here"@
    &&& d.suggestion is None
    &&& forall|m: int| 0 <= m < d.violations.len() ==> (#[trigger] d.violations[m]).label@ == "More #define statements found here"@
    &&& d.violations.len() == groups.len() - 1
    &&& forall|m: int| 0 <= m < d.violations.len() ==> (#[trigger] d.violations[m]).range.bytes.start == groups[m + 1].0
        && d.violations[m].range.bytes.end == trimmed_end_bytes(s, groups[m + 1].0 as int, groups[m + 1].1 as int)
}

/// Whether `d` has exactly one violation, over group `g` without its final newline.
pub open spec fn covers_group(d: Diagnostic, s: Seq<char>, g: (usize, usize)) -> bool {
    &&& d.rule == Rule3d::description()
    &&& d.ranges_consistent_with(s)
    &&& d.violations.len() == 1
    &&& d.violations[0].range.bytes.start == g.0
    &&& d.violations[0].range.bytes.end == trimmed_end_bytes(s, g.0 as int, g.1 as int)
    &&& d.notes.len() == 0
    &&& d.suggestion is None
}

/// Whether line `row` is blank.
fn line_is_blank(source: &SourceInfo, row: usize) -> (r: bool)
    requires
        source.wf(),
        row < source.index.lines.len(),
    ensures
        r == is_blank(source.text(), source.index.lines@[row as int]),
{
    let l = source.index.lines[row];
    assert(crate::lines::line_wf(source.text(), source.index.lines@[row as int]));
    l.start == l.end || (l.end == l.start + 1 && source.index.chars[l.start] == '\r')
}

/// Whether the characters `lo..hi` have a blank line (or the start of the file) before
/// them and a blank line (or the end of the file) after them.
pub fn has_blank_lines_around(source: &SourceInfo, lo: usize, hi: usize) -> (r: (bool, bool))
    requires
        source.wf(),
        lo <= hi <= source.text().len(),
    ensures
        r.0 == blank_before(source.text(), source.index.lines@, lo as int),
        r.1 == blank_after(source.text(), source.index.lines@, hi as int),
{
    let ghost s = source.text();
    let row = source.index.position_of_char_index(lo).0;
    let before = if row == 0 {
        true
    } else if row - 1 < source.index.lines.len() {
        line_is_blank(source, row - 1)
    } else {
        false
    };
    let hi_row = source.index.position_of_char_index(hi).0;
    let after = if hi_row >= source.index.lines.len() {
        true
    } else if hi == 0 || source.index.chars[hi - 1] == '\n' {
        line_is_blank(source, hi_row)
    } else if hi_row + 1 >= source.index.lines.len() {
        true
    } else {
        line_is_blank(source, hi_row + 1)
    };
    (before, after)
}

/// Returns the byte range without the trailing end-of-line sequence (`\n` or `\r\n`)
/// that a preprocessor node holds.
pub fn range_without_trailing_eol(range: Range<usize>, source: &SourceInfo) -> (r: Range<usize>)
    requires
        source.wf(),
        range.start <= range.end,
    ensures
        r.start == range.start,
        r.end == trimmed_end_bytes(source.text(), range.start as int, range.end as int),
{
    let lo = source.char_index(range.start);
    let hi = source.char_index(range.end);
    proof {
        crate::lines::lemma_char_index_monotone(source.text(), range.start as int, range.end as int);
    }
    if source.index.offsets[hi] != range.end {
        return range;
    }
    let chars = &source.index.chars;
    let end = if hi - lo >= 2 && chars[hi - 2] == '\r' && chars[hi - 1] == '\n' {
        hi - 2
    } else if hi - lo >= 1 && chars[hi - 1] == '\n' {
        hi - 1
    } else {
        hi
    };
    if end == hi || source.index.offsets[end] < range.start {
        range
    } else {
        range.start..source.index.offsets[end]
    }
}

/// Rule III:D.
pub struct Rule3d {}

impl Rule3d {
    /// The rule's description.
    pub open spec fn description() -> RuleDescription {
        RuleDescription {
            group_number: 3,
            letter: 'D',
            code: "III:D",
            name: "DefinePlacement",
            description: "#define statements must be grouped together and set off by blank lines",
        }
    }

    /// Returns the rule's description.
    pub fn describe(&self) -> (r: RuleDescription)
        ensures
            r == Self::description(),
    {
        RuleDescription {
            group_number: 3,
            letter: 'D',
            code: "III:D",
            name: "DefinePlacement",
            description: "#define statements must be grouped together and set off by blank lines",
        }
    }

    /// The source range of a group of `#define` statements, without its final newline.
    fn group_range(&self, source: &SourceInfo, g: (usize, usize)) -> (r: SourceRange)
        requires
            source.wf(),
            g.0 <= g.1 <= source.byte_len(),
        ensures
            r.consistent_with(source.text()),
            r.bytes.start == g.0,
            r.bytes.end == trimmed_end_bytes(source.text(), g.0 as int, g.1 as int),
    {
        let trimmed = range_without_trailing_eol(g.0..g.1, source);
        proof {
            let s = source.text();
            let lo = char_index_at(s, g.0 as int);
            let hi = char_index_at(s, g.1 as int);
            crate::lines::lemma_char_index_monotone(s, g.0 as int, g.1 as int);
            crate::lines::lemma_char_index_from_bounds(s, g.1 as int, s.len() as int);
            crate::lines::lemma_char_index_from_bounds(s, g.0 as int, s.len() as int);
            crate::lines::lemma_char_index_at_le(s, g.0 as int);
            crate::text::lemma_byte_offset_mono(s, trimmed_end(s, lo, hi), hi);
            crate::text::lemma_byte_offset_mono(s, lo, trimmed_end(s, lo, hi));
        }
        SourceRange::from_byte_range(trimmed, source)
    }

    /// The byte ranges of all `#define` statements, of those outside the functions,
    /// and the function definitions, each in document order.
    fn collect(&self, source: &SourceInfo) -> (r: (Vec<(usize, usize)>, Vec<(usize, usize)>, Vec<usize>))
        requires
            source.wf(),
        ensures
            r.0@ == define_ranges(source.tree, source.tree.nodes.len() as int, false),
            r.1@ == define_ranges(source.tree, source.tree.nodes.len() as int, true),
            forall|k: int| 0 <= k < r.0.len() ==> (#[trigger] r.0[k]).0 <= r.0[k].1 <= source.byte_len(),
            forall|k: int| 0 <= k < r.1.len() ==> (#[trigger] r.1[k]).0 <= r.1[k].1 <= source.byte_len(),
            forall|k: int| 0 <= k < r.2.len() ==> #[trigger] r.2[k] < source.tree.nodes.len(),
            r.2.len() == 0 <==> first_definition(source.tree, source.tree.nodes.len() as int) is None,
            r.2.len() > 0 ==> first_definition(source.tree, source.tree.nodes.len() as int) == Some(r.2[0] as int),
    {
        let tree = &source.tree;
        let mut all_defs: Vec<(usize, usize)> = Vec::new();
        let mut global_defs: Vec<(usize, usize)> = Vec::new();
        let mut functions: Vec<usize> = Vec::new();
        let mut i: usize = 0;
        while i < tree.nodes.len()
            invariant
                source.wf(),
                tree == &source.tree,
                i <= tree.nodes.len(),
                all_defs@ == define_ranges(*tree, i as int, false),
                global_defs@ == define_ranges(*tree, i as int, true),
                forall|k: int| 0 <= k < all_defs.len() ==> (#[trigger] all_defs[k]).0 <= all_defs[k].1 <= source.byte_len(),
                forall|k: int| 0 <= k < global_defs.len() ==> (#[trigger] global_defs[k]).0 <= global_defs[k].1 <= source.byte_len(),
                forall|k: int| 0 <= k < functions.len() ==> #[trigger] functions[k] < tree.nodes.len(),
                functions.len() == 0 <==> first_definition(*tree, i as int) is None,
                functions.len() > 0 ==> first_definition(*tree, i as int) == Some(functions[0] as int),
            decreases tree.nodes.len() - i,
        {
            assert(tree.node_wf(i as int));
            if tree.kind_is(i, "preproc_def") || tree.kind_is(i, "preproc_function_def") {
                let range = (tree.nodes[i].start, tree.nodes[i].end);
                all_defs.push(range);
                if !tree.has_ancestor(i, "function_definition") {
                    global_defs.push(range);
                }
            }
            if tree.kind_is(i, "function_definition") {
                functions.push(i);
            }
            i = i + 1;
        }
        (all_defs, global_defs, functions)
    }

    /// One diagnostic per top-level group that starts after the end of function
    /// `first`, in order, with the function as reference.
    fn check_placement(&self, source: &SourceInfo, groups: &Vec<(usize, usize)>, first: usize) -> (r: Vec<Diagnostic>)
        requires
            source.wf(),
            first < source.tree.nodes.len(),
            forall|k: int| 0 <= k < groups.len() ==> (#[trigger] groups[k]).0 <= groups[k].1 <= source.byte_len(),
        ensures
            ({
                let late = groups_after(groups@, source.tree.nodes[first as int].end);
                &&& r.len() == late.len()
                &&& forall|k: int| 0 <= k < r.len() ==> {
                    let d = #[trigger] r[k];
                    &&& covers_group(d, source.text(), groups[late[k]])
                    &&& d.references.len() == 1
                    &&& d.references[0].range.bytes.start == source.tree.nodes[first as int].start
                    &&& d.references[0].range.bytes.end == source.tree.nodes[first as int].end
                    &&& d.message@ == "Global preprocessor definitions must be placed at the top of the file, before all functions"@ && d.violations[0].label@ == "Macro(s) defined here"@ && d.references[0].label@ == "First function defined here"@
                }
            }),
    {
        let tree = &source.tree;
        let filename = source.filename.as_str();
        let ghost pred = |g: int| tree.nodes[first as int].end < groups[g].0;
        assert(tree.node_wf(first as int));
        let mut diags: Vec<Diagnostic> = Vec::new();
        let mut g: usize = 0;
        while g < groups.len()
            invariant
                source.wf(),
                tree == &source.tree,
                first < tree.nodes.len(),
                tree.node_wf(first as int),
                g <= groups.len(),
                pred == (|g: int| tree.nodes[first as int].end < groups[g].0),
                forall|k: int| 0 <= k < groups.len() ==> (#[trigger] groups[k]).0 <= groups[k].1 <= source.byte_len(),
                diags.len() == indices_where(g as int, pred).len(),
                forall|k: int| 0 <= k < diags.len() ==> {
                    let d = #[trigger] diags[k];
                    &&& covers_group(d, source.text(), groups[indices_where(g as int, pred)[k]])
                    &&& d.references.len() == 1
                    &&& d.references[0].range.bytes.start == tree.nodes[first as int].start
                    &&& d.references[0].range.bytes.end == tree.nodes[first as int].end
                    &&& d.message@ == "Global preprocessor definitions must be placed at the top of the file, before all functions"@ && d.violations[0].label@ == "Macro(s) defined here"@ && d.references[0].label@ == "First function defined here"@
                },
            decreases groups.len() - g,
        {
            let group = groups[g];
            if tree.nodes[first].end < group.0 {
                let range = self.group_range(source, group);
                let func_range = SourceRange::from_byte_range(tree.nodes[first].start..tree.nodes[first].end, source);
                let d = Diagnostic::new(self.describe(), "Global preprocessor definitions must be placed at the top of the file, before all functions".to_owned())
                    .with_violation(Span::new(filename, range, "Macro(s) defined here".to_owned()))
                    .with_reference(Span::new(filename, func_range, "First function defined here".to_owned()));
                diags.push(d);
            }
            g = g + 1;
        }
        diags
    }

    /// One diagnostic per missing blank line around the groups, in order: before a
    /// group, then after it.
    pub fn check_blank_lines(&self, source: &SourceInfo, groups: &Vec<(usize, usize)>) -> (r: Vec<Diagnostic>)
        requires
            source.wf(),
            forall|k: int| 0 <= k < groups.len() ==> (#[trigger] groups[k]).0 <= groups[k].1 <= source.byte_len(),
        ensures
            ({
                let b = blank_findings(source.text(), source.index.lines@, groups@, groups.len() as int);
                &&& r.len() == b.len()
                &&& forall|k: int| 0 <= k < r.len() ==> {
                    let d = #[trigger] r[k];
                    &&& covers_group(d, source.text(), groups[b[k].0])
                    &&& d.violations[0].label@ == Seq::<char>::empty()
                    &&& d.references.len() == 0
                    &&& d.message@ == if b[k].1 {
                        "Expected blank line before #define statement(s)"@
                    } else {
                        "Expected blank line after #define statement(s)"@
                    }
                }
            }),
    {
        let ghost s = source.text();
        let ghost lines = source.index.lines@;
        let filename = source.filename.as_str();
        let mut diags: Vec<Diagnostic> = Vec::new();
        let mut g: usize = 0;
        while g < groups.len()
            invariant
                source.wf(),
                s == source.text(),
                lines == source.index.lines@,
                g <= groups.len(),
                forall|k: int| 0 <= k < groups.len() ==> (#[trigger] groups[k]).0 <= groups[k].1 <= source.byte_len(),
                diags.len() == blank_findings(s, lines, groups@, g as int).len(),
                forall|k: int| 0 <= k < diags.len() ==> {
                    let d = #[trigger] diags[k];
                    let f = blank_findings(s, lines, groups@, g as int)[k];
                    &&& covers_group(d, s, groups[f.0])
                    &&& d.violations[0].label@ == Seq::<char>::empty()
                    &&& d.references.len() == 0
                    &&& d.message@ == if f.1 {
                        "Expected blank line before #define statement(s)"@
                    } else {
                        "Expected blank line after #define statement(s)"@
                    }
                },
            decreases groups.len() - g,
        {
            let group = groups[g];
            let lo = source.char_index(group.0);
            let hi = source.char_index(group.1);
            proof {
                crate::lines::lemma_char_index_monotone(s, group.0 as int, group.1 as int);
            }
            let (before, after) = has_blank_lines_around(source, lo, hi);
            let ghost prev = diags@;
            let ghost base = blank_findings(s, lines, groups@, g as int);
            let ghost mut added: Seq<(int, bool)> = Seq::empty();
            if !before {
                let range = self.group_range(source, group);
                let d = Diagnostic::new(self.describe(), "Expected blank line before #define statement(s)".to_owned())
                    .with_violation(Span::new(filename, range, String::new()));
                diags.push(d);
                proof { added = added.push((g as int, true)); }
            }
            if !after {
                let range = self.group_range(source, group);
                let d = Diagnostic::new(self.describe(), "Expected blank line after #define statement(s)".to_owned())
                    .with_violation(Span::new(filename, range, String::new()));
                diags.push(d);
                proof { added = added.push((g as int, false)); }
            }
            proof {
                assert(groups@[g as int] == group);
                assert(blank_findings(s, lines, groups@, g + 1) =~= base + added);
                assert forall|k: int| 0 <= k < diags.len() implies {
                    let d = #[trigger] diags[k];
                    let f = blank_findings(s, lines, groups@, g + 1)[k];
                    &&& covers_group(d, s, groups[f.0])
                    &&& d.violations[0].label@ == Seq::<char>::empty()
                    &&& d.references.len() == 0
                    &&& d.message@ == if f.1 {
                        "Expected blank line before #define statement(s)"@
                    } else {
                        "Expected blank line after #define statement(s)"@
                    }
                } by {
                    if k < prev.len() {
                        assert(diags[k] == prev[k]);
                        assert((base + added)[k] == base[k]);
                    } else {
                        assert((base + added)[k] == added[k - base.len()]);
                    }
                }
            }
            g = g + 1;
        }
        diags
    }

    /// The diagnostic for function definition `f`, if its body holds more than one
    /// group of `groups`.
    fn check_function(&self, source: &SourceInfo, groups: &Vec<(usize, usize)>, f: usize) -> (r: Option<Diagnostic>)
        requires
            source.wf(),
            f < source.tree.nodes.len(),
            groups@ == define_groups(source.tree, false),
            forall|k: int| 0 <= k < groups.len() ==> (#[trigger] groups[k]).0 <= groups[k].1 <= source.byte_len(),
        ensures
            r is Some <==> groups_in_body(source.tree, f as int).len() > 1,
            r matches Some(d) ==> reports_grouping(d, source.text(), groups_in_body(source.tree, f as int))
                && d.message@ == "All #define statements in each function must be grouped together"@ && d.notes.len() == 1 && d.notes[0]@ == function_note(source.text(), source.tree, f as int),
    {
        let tree = &source.tree;
        let body = match tree.child_by_field(f, "body") {
            Some(b) => b,
            None => {
                return None;
            },
        };
        let lo = tree.nodes[body].start;
        let hi = tree.nodes[body].end;
        let mut inside: Vec<(usize, usize)> = Vec::new();
        let mut g: usize = 0;
        assert(groups@.take(0) =~= Seq::<(usize, usize)>::empty());
        while g < groups.len()
            invariant
                g <= groups.len(),
                forall|k: int| 0 <= k < groups.len() ==> (#[trigger] groups[k]).0 <= groups[k].1 <= source.byte_len(),
                forall|k: int| 0 <= k < inside.len() ==> (#[trigger] inside[k]).0 <= inside[k].1 <= source.byte_len(),
                inside@ == groups_within(groups@.take(g as int), lo, hi),
            decreases groups.len() - g,
        {
            assert(groups@.take(g + 1).drop_last() =~= groups@.take(g as int));
            assert(groups@.take(g + 1).last() == groups@[g as int]);
            if groups[g].0 >= lo && groups[g].1 <= hi {
                inside.push(groups[g]);
            }
            g = g + 1;
        }
        assert(groups@.take(g as int) =~= groups@);
        if inside.len() <= 1 {
            return None;
        }
        let mut note = "In function `".to_owned();
        match tree.function_definition_name(f) {
            Some(name) => {
                let text = source.node_text(name);
                push_str(&mut note, text.as_str());
            },
            None => {},
        }
        push_str(&mut note, "()'");
        proof {
            let name = match tree.function_name_spec(f as int) {
                Some(n) => node_text_spec(source.text(), *tree, n),
                None => Seq::<char>::empty(),
            };
            assert(note@ =~= "In function `"@ + name + "()'"@);
        }
        Some(self.grouping_diagnostic(source, &inside, "All #define statements in each function must be grouped together", Some(note)))
    }

    /// What `check` returns on `source`.
    pub open spec fn checked(&self, source: SourceInfo, r: Seq<Diagnostic>) -> bool {
        &&& forall|k: int| 0 <= k < r.len() ==> (#[trigger] r[k]).rule == Self::description()
            && r[k].ranges_consistent_with(source.text())
        &&& ({
            let t = source.tree;
            let s = source.text();
            let top = define_groups(t, true);
            let late = misplaced_groups(t);
            let grouped = top_grouping_count(t);
            let b = blank_findings(s, source.index.lines@, define_groups(t, false), define_groups(t, false).len() as int);
            let sf = split_functions(t);
            &&& r.len() == late.len() + grouped + sf.len() + b.len()
            &&& forall|k: int| 0 <= k < sf.len() ==> reports_grouping(#[trigger] r[late.len() + grouped + k], s, groups_in_body(t, sf[k]))
                && r[late.len() + grouped + k].message@ == "All #define statements in each function must be grouped together"@ && r[late.len() + grouped + k].notes.len() == 1 && r[late.len() + grouped + k].notes[0]@ == function_note(s, t, sf[k])
            &&& forall|k: int| 0 <= k < late.len() ==> covers_group(#[trigger] r[k], s, top[late[k]])
                && r[k].references.len() == 1
                && r[k].references[0].range.bytes.start == t.nodes[first_definition(t, t.nodes.len() as int)->0].start
                && r[k].references[0].range.bytes.end == t.nodes[first_definition(t, t.nodes.len() as int)->0].end
                && r[k].message@ == "Global preprocessor definitions must be placed at the top of the file, before all functions"@ && r[k].violations[0].label@ == "Macro(s) defined here"@ && r[k].references[0].label@ == "First function defined here"@
            &&& top.len() > 1 ==> reports_grouping(r[late.len() as int], s, top)
                && r[late.len() as int].message@ == "All top-level #define statements must be grouped together"@ && r[late.len() as int].notes.len() == 0
            &&& forall|k: int| 0 <= k < b.len() ==> {
                let d = #[trigger] r[r.len() - b.len() + k];
                &&& covers_group(d, s, define_groups(t, false)[b[k].0])
                &&& d.violations[0].label@ == Seq::<char>::empty()
                &&& d.references.len() == 0
                &&& d.message@ == if b[k].1 {
                    "Expected blank line before #define statement(s)"@
                } else {
                    "Expected blank line after #define statement(s)"@
                }
            }
        })
    }

    /// Checks the `#define` statements of the file, reporting in this order: top-level
    /// groups after the first function; more than one top-level group; more than one
    /// group within one function; and each missing blank line around a group.
    pub fn check(&self, source: &SourceInfo) -> (r: Vec<Diagnostic>)
        requires
            source.wf(),
        ensures
            self.checked(*source, r@),
            forall|k: int| 0 <= k < r.len() ==> (#[trigger] r[k]).rule == Self::description()
                && r[k].ranges_consistent_with(source.text()),
            ({
                let t = source.tree;
                let s = source.text();
                let top = define_groups(t, true);
                let late = misplaced_groups(t);
                let grouped = top_grouping_count(t);
                let b = blank_findings(s, source.index.lines@, define_groups(t, false), define_groups(t, false).len() as int);
                let sf = split_functions(t);
                &&& r.len() == late.len() + grouped + sf.len() + b.len()
                &&& forall|k: int| 0 <= k < sf.len() ==> reports_grouping(#[trigger] r[late.len() + grouped + k], s, groups_in_body(t, sf[k]))
                    && r[late.len() + grouped + k].message@ == "All #define statements in each function must be grouped together"@ && r[late.len() + grouped + k].notes.len() == 1 && r[late.len() + grouped + k].notes[0]@ == function_note(s, t, sf[k])
                &&& forall|k: int| 0 <= k < late.len() ==> covers_group(#[trigger] r[k], s, top[late[k]])
                    && r[k].references.len() == 1
                    && r[k].references[0].range.bytes.start == t.nodes[first_definition(t, t.nodes.len() as int)->0].start
                    && r[k].references[0].range.bytes.end == t.nodes[first_definition(t, t.nodes.len() as int)->0].end
                    && r[k].message@ == "Global preprocessor definitions must be placed at the top of the file, before all functions"@ && r[k].violations[0].label@ == "Macro(s) defined here"@ && r[k].references[0].label@ == "First function defined here"@
                &&& top.len() > 1 ==> reports_grouping(r[late.len() as int], s, top)
                    && r[late.len() as int].message@ == "All top-level #define statements must be grouped together"@ && r[late.len() as int].notes.len() == 0
                &&& forall|k: int| 0 <= k < b.len() ==> {
                    let d = #[trigger] r[r.len() - b.len() + k];
                    &&& covers_group(d, s, define_groups(t, false)[b[k].0])
                    &&& d.violations[0].label@ == Seq::<char>::empty()
                    &&& d.references.len() == 0
                    &&& d.message@ == if b[k].1 {
                        "Expected blank line before #define statement(s)"@
                    } else {
                        "Expected blank line after #define statement(s)"@
                    }
                }
            }),
    {
        let tree = &source.tree;
        let (all_defs, global_defs, functions) = self.collect(source);
        let global_groups = collapse_ranges(&global_defs);
        let all_groups = collapse_ranges(&all_defs);
        proof {
            crate::collapse::lemma_collapse_bounds(global_defs@, source.byte_len());
            crate::collapse::lemma_collapse_bounds(all_defs@, source.byte_len());
        }

        // Top-level groups must come before the first function.
        let mut diags = if functions.len() > 0 {
            self.check_placement(source, &global_groups, functions[0])
        } else {
            Vec::new()
        };
        let ghost placed = diags@;
        proof {
            let t = source.tree;
            assert(global_groups@ == define_groups(t, true));
            assert(all_groups@ == define_groups(t, false));
            if functions.len() > 0 {
                assert(misplaced_groups(t) == groups_after(global_groups@, t.nodes[functions[0] as int].end));
            } else {
                assert(misplaced_groups(t) == Seq::<int>::empty());
            }
            assert(placed.len() == misplaced_groups(t).len());
        }

        // Top-level groups must be grouped together.
        if global_groups.len() > 1 {
            let d = self.grouping_diagnostic(source, &global_groups, "All top-level #define statements must be grouped together", None);
            diags.push(d);
        }
        let ghost head = diags@;

        // The groups within each function must be grouped together.
        let ghost sf_pred = |f: int| tree.kind_is_spec(f, "function_definition"@) && groups_in_body(*tree, f).len() > 1;
        let mut i: usize = 0;
        while i < tree.nodes.len()
            invariant
                source.wf(),
                tree == &source.tree,
                i <= tree.nodes.len(),
                all_groups@ == define_groups(*tree, false),
                forall|k: int| 0 <= k < all_groups.len() ==> (#[trigger] all_groups[k]).0 <= all_groups[k].1 <= source.byte_len(),
                sf_pred == (|f: int| tree.kind_is_spec(f, "function_definition"@) && groups_in_body(*tree, f).len() > 1),
                diags.len() == head.len() + indices_where(i as int, sf_pred).len(),
                forall|k: int| 0 <= k < head.len() ==> diags[k] == head[k],
                forall|k: int| 0 <= k < head.len() ==> (#[trigger] head[k]).rule == Self::description()
                    && head[k].ranges_consistent_with(source.text()),
                forall|k: int| 0 <= k < indices_where(i as int, sf_pred).len() ==> reports_grouping(
                    #[trigger] diags@[head.len() + k], source.text(), groups_in_body(*tree, indices_where(i as int, sf_pred)[k]))
                    && diags@[head.len() + k].message@ == "All #define statements in each function must be grouped together"@ && diags@[head.len() + k].notes.len() == 1 && diags@[head.len() + k].notes[0]@ == function_note(source.text(), *tree, indices_where(i as int, sf_pred)[k]),
            decreases tree.nodes.len() - i,
        {
            let ghost before = diags@;
            if tree.kind_is(i, "function_definition") {
                match self.check_function(source, &all_groups, i) {
                    Some(d) => {
                        diags.push(d);
                        assert(diags@[(head.len() + indices_where(i as int, sf_pred).len()) as int] == d);
                    },
                    None => {},
                }
            }
            proof {
                assert forall|k: int| 0 <= k < indices_where(i + 1, sf_pred).len() implies reports_grouping(
                    #[trigger] diags@[head.len() + k], source.text(), groups_in_body(*tree, indices_where(i + 1, sf_pred)[k]))
                    && diags@[head.len() + k].message@ == "All #define statements in each function must be grouped together"@ && diags@[head.len() + k].notes.len() == 1 && diags@[head.len() + k].notes[0]@ == function_note(source.text(), *tree, indices_where(i + 1, sf_pred)[k]) by {
                    if k < indices_where(i as int, sf_pred).len() {
                        assert(diags@[head.len() + k] == before[head.len() + k]);
                    }
                }
            }
            i = i + 1;
        }

        // Every group needs a blank line before and after it.
        let mut blanks = self.check_blank_lines(source, &all_groups);
        let ghost middle = diags@;
        let ghost tail = blanks@;
        diags.append(&mut blanks);
        proof {
            assert(diags@ == middle + tail);
            assert forall|k: int| 0 <= k < tail.len() implies diags@[diags.len() - tail.len() + k] == tail[k] by {}
            assert forall|k: int| 0 <= k < diags.len() implies (#[trigger] diags[k]).rule == Self::description()
                && diags[k].ranges_consistent_with(source.text()) by {
                if k >= middle.len() {
                    assert(diags[k] == tail[k - middle.len()]);
                } else if k >= head.len() {
                    assert(diags[k] == middle[k]);
                    let sf = split_functions(source.tree);
                    assert(middle[head.len() + (k - head.len())] == middle[k]);
                    assert(reports_grouping(middle[head.len() + (k - head.len())], source.text(),
                        groups_in_body(source.tree, sf[k - head.len()])));
                } else {
                    assert(diags[k] == middle[k]);
                    assert(middle[k] == head[k]);
                }
            }
            assert forall|k: int| 0 <= k < head.len() implies diags@[k] == head[k] by {
                assert(diags[k] == middle[k]);
            }
            let t = source.tree;
            let late = misplaced_groups(t);
            assert forall|k: int| 0 <= k < late.len() implies covers_group(#[trigger] diags@[k], source.text(), define_groups(t, true)[late[k]])
                && diags@[k].references.len() == 1
                && diags@[k].references[0].range.bytes.start == t.nodes[first_definition(t, t.nodes.len() as int)->0].start
                && diags@[k].references[0].range.bytes.end == t.nodes[first_definition(t, t.nodes.len() as int)->0].end
                && diags@[k].message@ == "Global preprocessor definitions must be placed at the top of the file, before all functions"@ && diags@[k].violations[0].label@ == "Macro(s) defined here"@ && diags@[k].references[0].label@ == "First function defined here"@ by {
                assert(diags@[k] == head[k]);
                assert(head[k] == placed[k]);
            }
            let b = blank_findings(source.text(), source.index.lines@, define_groups(t, false), define_groups(t, false).len() as int);
            assert(tail.len() == b.len());
            let top = define_groups(t, true);
            assert(head.len() == late.len() + if top.len() > 1 { 1int } else { 0int });
            assert(diags.len() == head.len() + split_functions(t).len() + tail.len());
            let sf = split_functions(t);
            assert forall|k: int| 0 <= k < sf.len() implies reports_grouping(#[trigger] diags@[head.len() + k], source.text(), groups_in_body(t, sf[k]))
                && diags@[head.len() + k].message@ == "All #define statements in each function must be grouped together"@ && diags@[head.len() + k].notes.len() == 1 && diags@[head.len() + k].notes[0]@ == function_note(source.text(), t, sf[k]) by {
                assert(diags@[head.len() + k] == middle[head.len() + k]);
            }
            if top.len() > 1 {
                assert(diags@[late.len() as int] == head[late.len() as int]);
                assert(reports_grouping(head[late.len() as int], source.text(), top));
            }
            assert forall|k: int| 0 <= k < b.len() implies {
                let d = #[trigger] diags@[diags.len() - b.len() + k];
                &&& covers_group(d, source.text(), define_groups(t, false)[b[k].0])
                &&& d.violations[0].label@ == Seq::<char>::empty()
                &&& d.references.len() == 0
                &&& d.message@ == if b[k].1 {
                    "Expected blank line before #define statement(s)"@
                } else {
                    "Expected blank line after #define statement(s)"@
                }
            } by {
                assert(diags@[diags.len() - b.len() + k] == tail[k]);
            }
        }
        diags
    }

    /// A diagnostic that references the first of `groups` and reports every later one.
    fn grouping_diagnostic(&self, source: &SourceInfo, groups: &Vec<(usize, usize)>, message: &str, note: Option<String>) -> (r: Diagnostic)
        requires
            source.wf(),
            groups.len() > 0,
            forall|k: int| 0 <= k < groups.len() ==> (#[trigger] groups[k]).0 <= groups[k].1 <= source.byte_len(),
        ensures
            reports_grouping(r, source.text(), groups@),
            r.message@ == message@,
            note is None ==> r.notes.len() == 0,
            note matches Some(n) ==> r.notes@ == seq![n],
    {
        let filename = source.filename.as_str();
        let first = self.group_range(source, groups[0]);
        let mut d = Diagnostic::new(self.describe(), message.to_owned())
            .with_reference(Span::new(filename, first, "First group of #define statements found here".to_owned()));
        let mut g: usize = 1;
        while g < groups.len()
            invariant
                source.wf(),
                1 <= g <= groups.len(),
                forall|k: int| 0 <= k < groups.len() ==> (#[trigger] groups[k]).0 <= groups[k].1 <= source.byte_len(),
                d.rule == Self::description(),
                d.ranges_consistent_with(source.text()),
                d.references.len() == 1,
                d.references[0].range.bytes.start == groups@[0].0,
                d.references[0].range.bytes.end == trimmed_end_bytes(source.text(), groups@[0].0 as int, groups@[0].1 as int),
                d.violations.len() == g - 1,
                forall|m: int| 0 <= m < d.violations.len() ==> (#[trigger] d.violations[m]).range.bytes.start == groups@[m + 1].0
                    && d.violations[m].range.bytes.end == trimmed_end_bytes(source.text(), groups@[m + 1].0 as int, groups@[m + 1].1 as int),
                d.message@ == message@,
                d.notes.len() == 0,
                d.suggestion is None,
                d.references[0].label@ == "First group of #define statements found here"@,
                forall|m: int| 0 <= m < d.violations.len() ==> (#[trigger] d.violations[m]).label@ == "More #define statements found here"@,
            decreases groups.len() - g,
        {
            let range = self.group_range(source, groups[g]);
            d = d.with_violation(Span::new(filename, range, "More #define statements found here".to_owned()));
            g = g + 1;
        }
        match note {
            Some(n) => {
                let r = d.with_note(n);
                assert(r.notes@ =~= seq![n]);
                r
            },
            None => d,
        }
    }
}

} // verus!
