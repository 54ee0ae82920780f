//! Rule II:A: lines must be 80 columns wide or less.

use vstd::prelude::*;
use crate::diagnostic::{Diagnostic, RuleDescription, Span};
use crate::lines::LineSpan;
use crate::rules::{char_range, indices_where, lemma_indices_where_bounds};
use crate::source::{decimal, push_char, push_decimal, push_str, SourceInfo};
use crate::lines::position_at;
use crate::syntax::SyntaxTree;
use crate::text::{byte_offset, columns_of, display_width, saturate};

verus! {

/// Widest a line may be, in columns.
pub const MAX_LINE_WIDTH: usize = 80;

/// Columns by which a continuing line must be indented past the line it continues.
pub const WRAPPED_LINE_INDENT_WIDTH: usize = 2;

/// Returns the leading whitespace of a line.
pub fn get_indentation(line: &str) -> (r: String)
    ensures
        r@ == line@.take(crate::text::leading_ws(line@) as int),
{
    let cs = crate::text::chars_of(line);
    let n = crate::text::leading_ws_in(&cs, 0, cs.len());
    assert(cs@.subrange(0, cs@.len() as int) =~= line@);
    let mut out = String::new();
    let mut k: usize = 0;
    while k < n
        invariant
            k <= n <= cs.len(),
            cs@ == line@,
            out@ == cs@.take(k as int),
        decreases n - k,
    {
        push_char(&mut out, cs[k]);
        assert(cs@.take(k + 1) =~= cs@.take(k as int).push(cs@[k as int]));
        k = k + 1;
    }
    out
}

/// Display width of line `l`.
pub open spec fn line_cols(s: Seq<char>, l: LineSpan) -> nat {
    display_width(s.subrange(l.start as int, l.end as int))
}

/// The first character index `j >= k` of line `l` at which the line has reached column
/// 80 (the line's end if it never does).
pub open spec fn column_cut(s: Seq<char>, l: LineSpan, k: int) -> int
    decreases l.end - k,
{
    if k >= l.end || display_width(s.subrange(l.start as int, k)) >= MAX_LINE_WIDTH {
        k
    } else {
        column_cut(s, l, k + 1)
    }
}

/// The lines wider than 80 columns, in order.
pub open spec fn long_lines(s: Seq<char>, lines: Seq<LineSpan>) -> Seq<int> {
    indices_where(lines.len() as int, |i: int| line_cols(s, lines[i]) > MAX_LINE_WIDTH)
}

pub proof fn lemma_column_cut_bounds(s: Seq<char>, l: LineSpan, k: int)
    requires
        l.start <= k <= l.end,
    ensures
        k <= column_cut(s, l, k) <= l.end,
    decreases l.end - k,
{
    if !(k >= l.end || display_width(s.subrange(l.start as int, k)) >= MAX_LINE_WIDTH) {
        lemma_column_cut_bounds(s, l, k + 1);
    }
}

/// The line-length rule does not fire for a line exactly 80 columns wide and fires
/// for one 81 columns wide.
pub proof fn lemma_line_length_boundary(s: Seq<char>, lines: Seq<LineSpan>, i: int)
    requires
        0 <= i < lines.len(),
    ensures
        line_cols(s, lines[i]) == 80 ==> !long_lines(s, lines).contains(i),
        line_cols(s, lines[i]) == 81 ==> long_lines(s, lines).contains(i),
{
    crate::rules::lemma_indices_where_contains(lines.len() as int, |k: int| line_cols(s, lines[k]) > MAX_LINE_WIDTH, i);
}

/// Scans `kids` for the `(` of a `for` header and the first `)` after it, `open`
/// being the `(` found so far.
pub open spec fn for_parens(t: SyntaxTree, kids: Seq<int>, open: Option<int>) -> (Option<int>, Option<int>)
    decreases kids.len(),
{
    if kids.len() == 0 {
        (open, None)
    } else if open is None && t.kind_is_spec(kids[0], "("@) {
        for_parens(t, kids.drop_first(), Some(kids[0]))
    } else if open is Some && t.kind_is_spec(kids[0], ")"@) {
        (open, Some(kids[0]))
    } else {
        for_parens(t, kids.drop_first(), open)
    }
}

/// Whether one of `kids` is a declarator with an initializer.
pub open spec fn any_initializer(t: SyntaxTree, kids: Seq<int>) -> bool
    decreases kids.len(),
{
    kids.len() > 0 && ((t.field_is_spec(kids[0], "declarator"@) && t.kind_is_spec(kids[0], "init_declarator"@))
        || any_initializer(t, kids.drop_first()))
}

/// The first and last node of the construct that node `i` makes splittable, if any.
pub open spec fn splittable_nodes(t: SyntaxTree, i: int) -> Option<(int, int)> {
    if t.kind_is_spec(i, "if_statement"@) || t.kind_is_spec(i, "switch_statement"@)
        || t.kind_is_spec(i, "while_statement"@) || t.kind_is_spec(i, "do_statement"@) {
        match t.child_by_field_spec(i, "condition"@) {
            Some(c) => Some((c, c)),
            None => None,
        }
    } else if t.kind_is_spec(i, "case_statement"@) {
        match t.child_by_field_spec(i, "value"@) {
            Some(c) => Some((c, c)),
            None => None,
        }
    } else if t.kind_is_spec(i, "for_statement"@) {
        match for_parens(t, t.children_spec(i), None) {
            (Some(o), Some(c)) => Some((o, c)),
            _ => None,
        }
    } else if t.kind_is_spec(i, "expression_statement"@) || t.kind_is_spec(i, "return_statement"@)
        || t.kind_is_spec(i, "break_statement"@) || t.kind_is_spec(i, "continue_statement"@)
        || t.kind_is_spec(i, "goto_statement"@) {
        Some((i, i))
    } else if t.kind_is_spec(i, "preproc_function_def"@) {
        match (t.first_child_spec(i), t.child_by_field_spec(i, "value"@)) {
            (Some(d), Some(v)) => if t.kind_is_spec(d, "#define"@) { Some((d, v)) } else { None },
            _ => None,
        }
    } else if t.kind_is_spec(i, "declaration"@) {
        if t.child_by_field_spec(i, "declarator"@) is Some && any_initializer(t, t.children_spec(i)) {
            Some((i, i))
        } else {
            None
        }
    } else {
        None
    }
}

/// The byte range of the construct that node `i` makes splittable, if any.
pub open spec fn splittable_spec(t: SyntaxTree, i: int) -> Option<(usize, usize)> {
    match splittable_nodes(t, i) {
        Some((a, b)) => if t.nodes[a].start <= t.nodes[b].end {
            Some((t.nodes[a].start, t.nodes[b].end))
        } else {
            None
        },
        None => None,
    }
}

/// Character index where the indentation of line `l` ends.
pub open spec fn indent_end(s: Seq<char>, l: LineSpan) -> int {
    l.start + crate::text::leading_ws(s.subrange(l.start as int, l.end as int))
}

/// Width in columns of the indentation of line `l`.
pub open spec fn indent_cols(s: Seq<char>, l: LineSpan) -> nat {
    display_width(s.subrange(l.start as int, indent_end(s, l)))
}

/// The rows `r` with `first < r < upto` indented less than `expected` columns.
pub open spec fn short_rows(s: Seq<char>, lines: Seq<LineSpan>, first: int, upto: int, expected: int) -> Seq<int>
    decreases upto - first,
{
    if upto <= first + 1 {
        Seq::empty()
    } else if indent_cols(s, lines[upto - 1]) < expected {
        short_rows(s, lines, first, upto - 1, expected).push(upto - 1)
    } else {
        short_rows(s, lines, first, upto - 1, expected)
    }
}

/// Columns a continuing line needs: 2 more than the first line's indentation.
pub open spec fn needed_cols(s: Seq<char>, lines: Seq<LineSpan>, row: int) -> int {
    saturate((indent_cols(s, lines[row]) + WRAPPED_LINE_INDENT_WIDTH) as nat) as int
}

/// For a construct split over rows `first..=last`, the continuing rows indented too
/// little.
pub open spec fn wrapped_short_rows(s: Seq<char>, lines: Seq<LineSpan>, t: SyntaxTree, i: int) -> Seq<int> {
    let (a, b) = splittable_spec(t, i)->0;
    let first = position_at(s, a as int).0 as int;
    let last = position_at(s, b as int).0 as int;
    short_rows(s, lines, first, last + 1, needed_cols(s, lines, first))
}

/// Whether node `i` is a construct split over several lines with a continuing line
/// indented too little.
pub open spec fn wraps_badly(s: Seq<char>, lines: Seq<LineSpan>, t: SyntaxTree, i: int) -> bool {
    splittable_spec(t, i) matches Some((a, b)) && ({
        let first = position_at(s, a as int).0;
        let last = position_at(s, b as int).0;
        first < last && last < lines.len() && wrapped_short_rows(s, lines, t, i).len() > 0
    })
}

/// The badly wrapped constructs, in document order.
pub open spec fn badly_wrapped(s: Seq<char>, lines: Seq<LineSpan>, t: SyntaxTree) -> Seq<int> {
    indices_where(t.nodes.len() as int, |i: int| wraps_badly(s, lines, t, i))
}

/// Whether `d` reports badly wrapped construct `i`: one violation over the indentation
/// of each line indented too little, and a reference over that of the first line.
pub open spec fn reports_wrapping(d: Diagnostic, s: Seq<char>, lines: Seq<LineSpan>, t: SyntaxTree, i: int) -> bool {
    let rows = wrapped_short_rows(s, lines, t, i);
    let (a, _b) = splittable_spec(t, i)->0;
    let first = lines[position_at(s, a as int).0 as int];
    &&& d.rule == Rule02a::description()
    &&& d.ranges_consistent_with(s)
    &&& d.violations.len() == rows.len()
    &&& forall|k: int| 0 <= k < rows.len() ==> (#[trigger] d.violations[k]).range.bytes.start
        == byte_offset(s, lines[rows[k]].start as int) && d.violations[k].range.bytes.end
        == byte_offset(s, indent_end(s, lines[rows[k]]))
    &&& d.references.len() == 1
    &&& d.references[0].range.bytes.start == byte_offset(s, first.start as int)
    &&& d.references[0].range.bytes.end == byte_offset(s, indent_end(s, first))
    &&& d.message@ == "Wrapped expressions/statements must be indented by at least 2 spaces"@
    &&& d.notes.len() == 0
    &&& d.suggestion is None
    &&& d.references[0].label@ == "Found indentation of "@ + decimal(indent_cols(s, first)) + " columns on initial line"@
    &&& forall|k: int| 0 <= k < rows.len() ==> (#[trigger] d.violations[k]).label@ == "Expected >="@
        + decimal(needed_cols(s, lines, position_at(s, a as int).0 as int) as nat) + " columns of indentation on continuing line"@
}

/// Whether `d` reports line `l` as wider than 80 columns: one violation from column 80
/// to the end of the line.
pub open spec fn reports_length(d: Diagnostic, s: Seq<char>, l: LineSpan) -> bool {
    &&& d.rule == Rule02a::description()
    &&& d.ranges_consistent_with(s)
    &&& d.violations.len() == 1
    &&& d.references.len() == 0
    &&& d.violations[0].range.bytes.start == byte_offset(s, column_cut(s, l, l.start as int))
    &&& d.violations[0].range.bytes.end == byte_offset(s, l.end as int)
    &&& d.message@ == "Line length exceeds 80 columns."@
    &&& d.plain()
}

/// Line `row` of the source.
fn self_line(source: &SourceInfo, row: usize) -> (r: LineSpan)
    requires
        source.wf(),
        row < source.index.lines.len(),
    ensures
        r == source.index.lines@[row as int],
{
    source.index.lines[row]
}

/// Rule II:A.
pub struct Rule02a {}

impl Rule02a {
    /// The rule's description.
    pub open spec fn description() -> RuleDescription {
        RuleDescription {
            group_number: 2,
            letter: 'A',
            code: "II:A",
            name: "LineLength",
            description: "lines must be 80 columns wide or less",
        }
    }

    /// Returns the rule's description.
    pub fn describe(&self) -> (r: RuleDescription)
        ensures
            r == Self::description(),
    {
        RuleDescription {
            group_number: 2,
            letter: 'A',
            code: "II:A",
            name: "LineLength",
            description: "lines must be 80 columns wide or less",
        }
    }

    /// What `check` returns on `source`: a diagnostic for each line wider than 80
    /// columns, in order, then one for each badly wrapped construct, in order.
    pub open spec fn checked(&self, source: SourceInfo, r: Seq<Diagnostic>) -> bool {
        let s = source.text();
        let lines = source.index.lines@;
        let long = long_lines(s, lines);
        let wrapped = badly_wrapped(s, lines, source.tree);
        &&& r.len() == long.len() + wrapped.len()
        &&& forall|k: int| 0 <= k < long.len() ==> reports_length(#[trigger] r[k], s, lines[long[k]])
        &&& forall|k: int| 0 <= k < wrapped.len() ==> reports_wrapping(#[trigger] r[long.len() + k], s, lines,
            source.tree, wrapped[k])
    }

    /// Checks the width of every line, then the indentation of every construct that
    /// is split over several lines.
    pub fn check(&self, source: &SourceInfo) -> (r: Vec<Diagnostic>)
        requires
            source.wf(),
        ensures
            self.checked(*source, r@),
            forall|k: int| 0 <= k < r.len() ==> (#[trigger] r[k]).rule == Self::description()
                && r[k].ranges_consistent_with(source.text()),
    {
        let mut diags = self.check_line_length(source);
        let ghost lengths = diags@;
        let mut wrapped = self.check_wrapped_indentation(source);
        let ghost rest = wrapped@;
        diags.append(&mut wrapped);
        proof {
            assert(diags@ == lengths + rest);
            assert forall|k: int| 0 <= k < diags.len() implies (#[trigger] diags[k]).rule == Self::description()
                && diags[k].ranges_consistent_with(source.text()) by {
                if k < lengths.len() {
                    assert(diags[k] == lengths[k]);
                } else {
                    assert(diags[k] == rest[k - lengths.len()]);
                }
            }
            assert forall|k: int| 0 <= k < lengths.len() implies diags[k] == lengths[k] by {}
            let long = long_lines(source.text(), source.index.lines@);
            assert forall|k: int| 0 <= k < long.len() implies reports_length(#[trigger] diags@[k], source.text(),
                source.index.lines@[long[k]]) by {
                assert(diags@[k] == lengths[k]);
            }
            let wrapped = badly_wrapped(source.text(), source.index.lines@, source.tree);
            assert forall|k: int| 0 <= k < wrapped.len() implies reports_wrapping(#[trigger] diags@[long.len() + k],
                source.text(), source.index.lines@, source.tree, wrapped[k]) by {
                assert(diags@[long.len() + k] == rest[k]);
            }
        }
        diags
    }

    /// The byte range of node `i` if it is a construct at whose boundaries a long line
    /// may be broken: a condition, a case value, a `for` header, a statement, the body
    /// of a macro or a declaration with an initializer.
    fn splittable_range(&self, source: &SourceInfo, i: usize) -> (r: Option<(usize, usize)>)
        requires
            source.wf(),
            i < source.tree.nodes.len(),
        ensures
            r == splittable_spec(source.tree, i as int),
            r matches Some((a, b)) ==> a <= b <= source.byte_len(),
    {
        let tree = &source.tree;
        let part = if tree.kind_is(i, "if_statement") || tree.kind_is(i, "switch_statement")
            || tree.kind_is(i, "while_statement") || tree.kind_is(i, "do_statement") {
            match tree.child_by_field(i, "condition") {
                Some(c) => Some((c, c)),
                None => None,
            }
        } else if tree.kind_is(i, "case_statement") {
            match tree.child_by_field(i, "value") {
                Some(c) => Some((c, c)),
                None => None,
            }
        } else if tree.kind_is(i, "for_statement") {
            let kids = tree.children(i);
            let ghost ks = kids@.map_values(|x: usize| x as int);
            let mut open: Option<usize> = None;
            let mut close: Option<usize> = None;
            let mut k: usize = 0;
            assert(ks.skip(0) =~= ks);
            while k < kids.len()
                invariant
                    tree.wf(),
                    tree == &source.tree,
                    k <= kids.len(),
                    ks == kids@.map_values(|x: usize| x as int),
                    ks == tree.children_spec(i as int),
                    forall|m: int| 0 <= m < kids.len() ==> #[trigger] kids[m] < tree.nodes.len(),
                    open matches Some(o) ==> o < tree.nodes.len(),
                    close matches Some(c) ==> c < tree.nodes.len() && open is Some,
                    close is None ==> for_parens(*tree, ks, None) == for_parens(*tree, ks.skip(k as int),
                        match open { Some(o) => Some(o as int), None => None }),
                    close matches Some(c) ==> for_parens(*tree, ks, None) == (Some(open->0 as int), Some(c as int)),
                decreases kids.len() - k,
            {
                assert(ks.skip(k as int)[0] == kids[k as int] as int);
                assert(ks.skip(k as int).drop_first() =~= ks.skip(k + 1));
                if open.is_none() && tree.kind_is(kids[k], "(") {
                    open = Some(kids[k]);
                } else if open.is_some() && close.is_none() && tree.kind_is(kids[k], ")") {
                    close = Some(kids[k]);
                }
                k = k + 1;
            }
            assert(ks.skip(k as int) =~= Seq::<int>::empty());
            match (open, close) {
                (Some(o), Some(c)) => Some((o, c)),
                _ => None,
            }
        } else if tree.kind_is(i, "expression_statement") || tree.kind_is(i, "return_statement")
            || tree.kind_is(i, "break_statement") || tree.kind_is(i, "continue_statement")
            || tree.kind_is(i, "goto_statement") {
            Some((i, i))
        } else if tree.kind_is(i, "preproc_function_def") {
            match (tree.first_child(i), tree.child_by_field(i, "value")) {
                (Some(d), Some(v)) => {
                    if tree.kind_is(d, "#define") {
                        Some((d, v))
                    } else {
                        None
                    }
                },
                _ => None,
            }
        } else if tree.kind_is(i, "declaration") {
            match tree.child_by_field(i, "declarator") {
                Some(_) => {
                    if self.has_initializer(source, i) {
                        Some((i, i))
                    } else {
                        None
                    }
                },
                None => None,
            }
        } else {
            None
        };
        assert(match part { Some((a, b)) => splittable_nodes(*tree, i as int) == Some((a as int, b as int)),
            None => splittable_nodes(*tree, i as int) is None });
        match part {
            Some((a, b)) => {
                assert(tree.node_wf(a as int));
                assert(tree.node_wf(b as int));
                if tree.nodes[a].start <= tree.nodes[b].end {
                    Some((tree.nodes[a].start, tree.nodes[b].end))
                } else {
                    None
                }
            },
            None => None,
        }
    }

    /// Whether declaration `i` has a declarator with an initializer.
    fn has_initializer(&self, source: &SourceInfo, i: usize) -> (r: bool)
        requires
            source.wf(),
            i < source.tree.nodes.len(),
        ensures
            r == any_initializer(source.tree, source.tree.children_spec(i as int)),
    {
        let tree = &source.tree;
        let kids = tree.children(i);
        let ghost ks = kids@.map_values(|x: usize| x as int);
        let mut k: usize = 0;
        assert(ks.skip(0) =~= ks);
        while k < kids.len()
            invariant
                tree.wf(),
                tree == &source.tree,
                k <= kids.len(),
                ks == kids@.map_values(|x: usize| x as int),
                ks == tree.children_spec(i as int),
                forall|m: int| 0 <= m < kids.len() ==> #[trigger] kids[m] < tree.nodes.len(),
                any_initializer(*tree, ks) == any_initializer(*tree, ks.skip(k as int)),
            decreases kids.len() - k,
        {
            assert(ks.skip(k as int)[0] == kids[k as int] as int);
            assert(ks.skip(k as int).drop_first() =~= ks.skip(k + 1));
            if tree.field_is(kids[k], "declarator") && tree.kind_is(kids[k], "init_declarator") {
                return true;
            }
            k = k + 1;
        }
        false
    }

    /// Indentation of line `row`: its width in columns, and its character range.
    fn line_indent(&self, source: &SourceInfo, row: usize) -> (r: (usize, usize, usize))
        requires
            source.wf(),
            row < source.index.lines.len(),
        ensures
            r.1 <= r.2 <= source.text().len(),
            r.0 == indent_cols(source.text(), source.index.lines@[row as int]),
            r.1 == source.index.lines@[row as int].start,
            r.2 == indent_end(source.text(), source.index.lines@[row as int]),
    {
        let l = self_line(source, row);
        assert(crate::lines::line_wf(source.text(), source.index.lines@[row as int]));
        let n = crate::text::leading_ws_in(&source.index.chars, l.start, l.end);
        let w = crate::text::width_of_range(&source.index.chars, l.start, l.start + n);
        (w, l.start, l.start + n)
    }

    /// The wrapped-indentation diagnostics: for every construct split over several
    /// lines, in document order, one diagnostic if a continuing line is indented less
    /// than 2 columns past the first line, with a violation over the indentation of
    /// each such line and a reference over that of the first line.
    pub fn check_wrapped_indentation(&self, source: &SourceInfo) -> (r: Vec<Diagnostic>)
        requires
            source.wf(),
        ensures
            r.len() == badly_wrapped(source.text(), source.index.lines@, source.tree).len(),
            forall|k: int| 0 <= k < r.len() ==> reports_wrapping(#[trigger] r[k], source.text(), source.index.lines@,
                source.tree, badly_wrapped(source.text(), source.index.lines@, source.tree)[k]),
    {
        let tree = &source.tree;
        let ghost s = source.text();
        let ghost lines = source.index.lines@;
        let ghost pred = |i: int| wraps_badly(s, lines, *tree, i);
        let filename = source.filename.as_str();
        let n_lines = source.index.lines.len();
        let mut diags: Vec<Diagnostic> = Vec::new();
        let mut i: usize = 0;
        while i < tree.nodes.len()
            invariant
                source.wf(),
                tree == &source.tree,
                s == source.text(),
                lines == source.index.lines@,
                n_lines == lines.len(),
                i <= tree.nodes.len(),
                pred == (|i: int| wraps_badly(s, lines, *tree, i)),
                diags.len() == indices_where(i as int, pred).len(),
                forall|k: int| 0 <= k < diags.len() ==> reports_wrapping(#[trigger] diags[k], s, lines, *tree,
                    indices_where(i as int, pred)[k]),
            decreases tree.nodes.len() - i,
        {
            match self.splittable_range(source, i) {
                Some((a, b)) => {
                    let first_row = source.index.position(a).0;
                    let last_row = source.index.position(b).0;
                    if first_row < last_row && last_row < n_lines {
                        let (first_width, fs, fe) = self.line_indent(source, first_row);
                        let expected = first_width.saturating_add(WRAPPED_LINE_INDENT_WIDTH);
                        let mut label = "Expected >=".to_owned();
                        push_decimal(&mut label, expected);
                        push_str(&mut label, " columns of indentation on continuing line");
                        assert(label@ =~= "Expected >="@ + decimal(expected as nat) + " columns of indentation on continuing line"@);
                        let mut violations: Vec<Span> = Vec::new();
                        let mut row = first_row + 1;
                        while row <= last_row
                            invariant
                                source.wf(),
                                s == source.text(),
                                lines == source.index.lines@,
                                last_row < n_lines == lines.len(),
                                first_row < row <= last_row + 1,
                                violations.len() == short_rows(s, lines, first_row as int, row as int, expected as int).len(),
                                forall|k: int| 0 <= k < violations.len() ==> {
                                    let l = lines[short_rows(s, lines, first_row as int, row as int, expected as int)[k]];
                                    &&& (#[trigger] violations[k]).range.consistent_with(s)
                                    &&& violations[k].range.bytes.start == byte_offset(s, l.start as int)
                                    &&& violations[k].range.bytes.end == byte_offset(s, indent_end(s, l))
                                    &&& violations[k].label == label
                                },
                            decreases last_row + 1 - row,
                        {
                            let (w, st, e) = self.line_indent(source, row);
                            if w < expected {
                                let range = char_range(source, st, e);
                                violations.push(Span::new(filename, range, label.clone()));
                            }
                            row = row + 1;
                        }
                        if violations.len() > 0 {
                            let mut found = "Found indentation of ".to_owned();
                            push_decimal(&mut found, first_width);
                            push_str(&mut found, " columns on initial line");
                            assert(found@ =~= "Found indentation of "@ + decimal(first_width as nat) + " columns on initial line"@);
                            let first_range = char_range(source, fs, fe);
                            let d = Diagnostic::new(self.describe(), "Wrapped expressions/statements must be indented by at least 2 spaces".to_owned())
                                .with_violations(violations)
                                .with_reference(Span::new(filename, first_range, found));
                            diags.push(d);
                        }
                    }
                },
                None => {},
            }
            i = i + 1;
        }
        diags
    }

    /// Character index at which line `l` reaches column 80.
    fn cut_index(&self, source: &SourceInfo, l: LineSpan) -> (r: usize)
        requires
            source.wf(),
            l.start <= l.end <= source.text().len(),
        ensures
            r == column_cut(source.text(), l, l.start as int),
            l.start <= r <= l.end,
    {
        let ghost s = source.text();
        let mut k: usize = l.start;
        let mut w: usize = 0;
        proof {
            assert(s.subrange(l.start as int, l.start as int) =~= Seq::<char>::empty());
        }
        while k < l.end && w < MAX_LINE_WIDTH
            invariant
                source.wf(),
                s == source.text(),
                l.start <= k <= l.end <= s.len(),
                w == display_width(s.subrange(l.start as int, k as int)),
                column_cut(s, l, l.start as int) == column_cut(s, l, k as int),
            decreases l.end - k,
        {
            let c = columns_of(source.index.chars[k]);
            assert(s.subrange(l.start as int, k + 1).drop_last() =~= s.subrange(l.start as int, k as int));
            w = w.saturating_add(c);
            k = k + 1;
        }
        k
    }

    /// The line-length diagnostics: one per line wider than 80 columns, in order, with
    /// one violation from column 80 to the end of the line.
    pub fn check_line_length(&self, source: &SourceInfo) -> (r: Vec<Diagnostic>)
        requires
            source.wf(),
        ensures
            r.len() == long_lines(source.text(), source.index.lines@).len(),
            forall|k: int| 0 <= k < r.len() ==> {
                let d = #[trigger] r[k];
                let l = source.index.lines@[long_lines(source.text(), source.index.lines@)[k]];
                &&& d.rule == Self::description()
                &&& d.ranges_consistent_with(source.text())
                &&& d.violations.len() == 1
                &&& d.references.len() == 0
                &&& d.violations[0].range.bytes.start == byte_offset(source.text(), column_cut(source.text(), l, l.start as int))
                &&& d.violations[0].range.bytes.end == byte_offset(source.text(), l.end as int)
                &&& d.message@ == "Line length exceeds 80 columns."@
    &&& d.plain()
            },
    {
        let ghost s = source.text();
        let ghost lines = source.index.lines@;
        let ghost p = |i: int| line_cols(s, lines[i]) > MAX_LINE_WIDTH;
        let mut diags: Vec<Diagnostic> = Vec::new();
        let mut i: usize = 0;
        while i < source.index.lines.len()
            invariant
                source.wf(),
                s == source.text(),
                lines == source.index.lines@,
                i <= lines.len(),
                p == (|i: int| line_cols(s, lines[i]) > MAX_LINE_WIDTH),
                diags.len() == indices_where(i as int, p).len(),
                forall|k: int| 0 <= k < diags.len() ==> {
                    let d = #[trigger] diags[k];
                    let l = lines[indices_where(i as int, p)[k]];
                    &&& d.rule == Self::description()
                    &&& d.ranges_consistent_with(s)
                    &&& d.violations.len() == 1
                    &&& d.references.len() == 0
                    &&& d.violations[0].range.bytes.start == byte_offset(s, column_cut(s, l, l.start as int))
                    &&& d.violations[0].range.bytes.end == byte_offset(s, l.end as int)
                    &&& d.message@ == "Line length exceeds 80 columns."@
    &&& d.plain()
                },
            decreases lines.len() - i,
        {
            let l = source.index.lines[i];
            assert(crate::lines::line_wf(s, lines[i as int]));
            let width = crate::text::width_of_range(&source.index.chars, l.start, l.end);
            if width > MAX_LINE_WIDTH {
                let cut = self.cut_index(source, l);
                let range = char_range(source, cut, l.end);
                let d = Diagnostic::new(self.describe(), "Line length exceeds 80 columns.".to_owned())
                    .with_violation(Span::new(source.filename.as_str(), range, String::new()));
                diags.push(d);
            }
            i = i + 1;
        }
        proof {
            lemma_indices_where_bounds(lines.len() as int, p);
        }
        diags
    }
}

} // verus!
