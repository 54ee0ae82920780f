//! Rule II:B: functions must be kept reasonably small.

use vstd::prelude::*;
use crate::diagnostic::{Diagnostic, RuleDescription, SourceRange, Span};
use crate::lines::position_at;
use crate::rules::indices_where;
use crate::rules::rule12a::node_text_spec;
use crate::source::{decimal, push_decimal, push_str, SourceInfo};
use crate::syntax::SyntaxTree;

verus! {

/// Lines on a printed page.
pub const PAGE_SIZE: usize = 61;

/// Pages a function may take.
pub const MAX_PAGES_PER_FUNCTION: usize = 2;

/// Lines a function may take: two pages of 61 lines.
pub const MAX_FUNCTION_LINES: usize = 122;

/// Number of lines that node `i` spans, from the row of its first byte to the row of
/// its last.
pub open spec fn node_lines(s: Seq<char>, t: SyntaxTree, i: int) -> int {
    position_at(s, t.nodes[i].end as int).0 - position_at(s, t.nodes[i].start as int).0 + 1
}

/// Whether node `i` is a function definition longer than the limit.
pub open spec fn is_long_function(s: Seq<char>, t: SyntaxTree, i: int) -> bool {
    t.kind_is_spec(i, "function_definition"@) && node_lines(s, t, i) > MAX_FUNCTION_LINES
}

/// The function definitions of `t` longer than the limit, in document order.
pub open spec fn long_functions(s: Seq<char>, t: SyntaxTree) -> Seq<int> {
    indices_where(t.nodes.len() as int, |i: int| is_long_function(s, t, i))
}

/// The function-length rule compares strictly: a function definition of 122 lines
/// passes and one of 123 lines is reported.
pub proof fn lemma_function_length_boundary(s: Seq<char>, t: SyntaxTree, i: int)
    requires
        0 <= i < t.nodes.len(),
        t.kind_is_spec(i, "function_definition"@),
    ensures
        node_lines(s, t, i) == 122 ==> !long_functions(s, t).contains(i),
        node_lines(s, t, i) == 123 ==> long_functions(s, t).contains(i),
{
    crate::rules::lemma_indices_where_contains(t.nodes.len() as int, |k: int| is_long_function(s, t, k), i);
}

/// The message of every function-length diagnostic.
pub open spec fn length_message() -> Seq<char> {
    "Functions must fit on "@ + decimal(MAX_PAGES_PER_FUNCTION as nat) + " pages, i.e. be no longer than "@
        + decimal(MAX_FUNCTION_LINES as nat) + " lines"@
}

/// The label over function definition `i`: its name and its length in lines.
pub open spec fn length_label(s: Seq<char>, t: SyntaxTree, i: int) -> Seq<char> {
    let name = match t.function_name_spec(i) {
        Some(n) => node_text_spec(s, t, n),
        None => Seq::empty(),
    };
    "Function `"@ + name + "()' is "@ + decimal(node_lines(s, t, i) as nat) + " lines long"@
}

/// Rule II:B.
pub struct Rule02b {}

impl Rule02b {
    /// The rule's description.
    pub open spec fn description() -> RuleDescription {
        RuleDescription {
            group_number: 2,
            letter: 'B',
            code: "II:B",
            name: "FunctionLength",
            description: "functions must be kept reasonably small",
        }
    }

    /// Returns the rule's description.
    pub fn describe(&self) -> (r: RuleDescription)
        ensures
            r == Self::description(),
    {
        RuleDescription {
            group_number: 2,
            letter: 'B',
            code: "II:B",
            name: "FunctionLength",
            description: "functions must be kept reasonably small",
        }
    }

    /// What `check` returns on `source`: one diagnostic per function definition that
    /// spans strictly more than 122 lines, in document order, with one violation over
    /// the whole function labelled with its name and length.
    pub open spec fn checked(&self, source: SourceInfo, r: Seq<Diagnostic>) -> bool {
        let s = source.text();
        let t = source.tree;
        &&& r.len() == long_functions(s, t).len()
        &&& forall|k: int| 0 <= k < r.len() ==> {
            let d = #[trigger] r[k];
            let f = long_functions(s, t)[k];
            let n = t.nodes[f];
            &&& d.rule == Self::description()
            &&& d.ranges_consistent_with(s)
            &&& d.violations.len() == 1
            &&& d.references.len() == 0
            &&& d.violations[0].range.bytes.start == n.start
            &&& d.violations[0].range.bytes.end == n.end
            &&& d.message@ == length_message()
            &&& d.notes.len() == 0
            &&& d.suggestion is None
            &&& d.violations[0].label@ == length_label(s, t, f)
        }
    }

    /// One diagnostic per function definition that spans strictly more than 122 lines,
    /// in document order, with one violation over the whole function.
    pub fn check(&self, source: &SourceInfo) -> (r: Vec<Diagnostic>)
        requires
            source.wf(),
        ensures
            self.checked(*source, r@),
    {
        let tree = &source.tree;
        let ghost s = source.text();
        let ghost p = |i: int| is_long_function(s, *tree, i);
        let mut diags: Vec<Diagnostic> = Vec::new();
        let mut i: usize = 0;
        while i < tree.nodes.len()
            invariant
                source.wf(),
                tree == &source.tree,
                s == source.text(),
                i <= tree.nodes.len(),
                p == (|i: int| is_long_function(s, *tree, i)),
                diags.len() == indices_where(i as int, p).len(),
                forall|m: int| 0 <= m < diags.len() ==> {
                    let d = #[trigger] diags[m];
                    let n = tree.nodes[indices_where(i as int, p)[m]];
                    &&& d.rule == Self::description()
                    &&& d.ranges_consistent_with(s)
                    &&& d.violations.len() == 1
                    &&& d.references.len() == 0
                    &&& d.violations[0].range.bytes.start == n.start
                    &&& d.violations[0].range.bytes.end == n.end
                    &&& d.message@ == length_message()
            &&& d.notes.len() == 0
            &&& d.suggestion is None
                    &&& d.violations[0].label@ == length_label(s, *tree, indices_where(i as int, p)[m])
                },
            decreases tree.nodes.len() - i,
        {
            assert(tree.node_wf(i as int));
            if tree.kind_is(i, "function_definition") {
                let range = SourceRange::from_byte_range(tree.nodes[i].start..tree.nodes[i].end, source);
                proof {
                    crate::lines::lemma_char_index_monotone(s, tree.nodes[i as int].start as int, tree.nodes[i as int].end as int);
                    crate::lines::lemma_char_index_from_bounds(s, tree.nodes[i as int].end as int, s.len() as int);
                    crate::lines::lemma_char_index_from_bounds(s, tree.nodes[i as int].start as int, s.len() as int);
                    crate::lines::lemma_newlines_monotone(s, crate::lines::char_index_at(s, tree.nodes[i as int].start as int),
                        crate::lines::char_index_at(s, tree.nodes[i as int].end as int));
                }
                assert(source.index.offsets.len() == s.len() + 1);
                let length = range.end_pos.0 - range.start_pos.0;
                if length >= MAX_FUNCTION_LINES {
                    let d = self.report(source, i, range, length);
                    diags.push(d);
                }
            }
            i = i + 1;
        }
        diags
    }

    /// The diagnostic for function definition `f`, whose rows differ by `length`.
    fn report(&self, source: &SourceInfo, f: usize, range: SourceRange, length: usize) -> (r: Diagnostic)
        requires
            source.wf(),
            f < source.tree.nodes.len(),
            length < usize::MAX,
            length + 1 == node_lines(source.text(), source.tree, f as int),
        ensures
            r.rule == Self::description(),
            r.violations@ == seq![r.violations[0]],
            r.violations[0].range == range,
            r.references.len() == 0,
            r.message@ == length_message(),
            r.notes.len() == 0,
            r.suggestion is None,
            r.violations[0].label@ == length_label(source.text(), source.tree, f as int),
    {
        let tree = &source.tree;
        let mut message = "Functions must fit on ".to_owned();
        push_decimal(&mut message, MAX_PAGES_PER_FUNCTION);
        push_str(&mut message, " pages, i.e. be no longer than ");
        push_decimal(&mut message, MAX_FUNCTION_LINES);
        push_str(&mut message, " lines");
        let mut label = "Function `".to_owned();
        match tree.function_definition_name(f) {
            Some(name) => {
                let text = source.node_text(name);
                push_str(&mut label, text.as_str());
            },
            None => {},
        }
        push_str(&mut label, "()' is ");
        push_decimal(&mut label, length + 1);
        push_str(&mut label, " lines long");
        proof {
            assert(message@ =~= length_message());
            let name = match tree.function_name_spec(f as int) {
                Some(n) => node_text_spec(source.text(), *tree, n),
                None => Seq::<char>::empty(),
            };
            assert(label@ =~= "Function `"@ + name + "()' is "@ + decimal((length + 1) as nat) + " lines long"@);
        }
        let d = Diagnostic::new(self.describe(), message)
            .with_violation(Span::new(source.filename.as_str(), range, label));
        assert(d.violations@ =~= seq![d.violations[0]]);
        d
    }
}

} // verus!
