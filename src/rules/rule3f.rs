//! Rule III:F: no space between a function's name and its opening parenthesis.

use vstd::prelude::*;
use crate::diagnostic::{Diagnostic, RuleDescription, SourceRange, Span};
use crate::rules::indices_where;
use crate::source::SourceInfo;
use crate::syntax::SyntaxTree;

verus! {

/// For node `i`: the child under `name_field`, and the `(` that begins its child under
/// `list_field`.
pub open spec fn name_and_paren_spec(t: SyntaxTree, i: int, name_field: Seq<char>, list_field: Seq<char>) -> Option<(int, int)> {
    match (t.child_by_field_spec(i, name_field), t.child_by_field_spec(i, list_field)) {
        (Some(f), Some(l)) => match t.first_child_spec(l) {
            Some(p) => if t.kind_is_spec(p, "("@) {
                Some((f, p))
            } else {
                None
            },
            None => None,
        },
        _ => None,
    }
}

/// The name and opening parenthesis of a function declarator, call or function-like
/// macro `i`.
pub open spec fn paren_pair(t: SyntaxTree, i: int) -> Option<(int, int)> {
    if t.kind_is_spec(i, "function_declarator"@) {
        name_and_paren_spec(t, i, "declarator"@, "parameters"@)
    } else if t.kind_is_spec(i, "call_expression"@) {
        name_and_paren_spec(t, i, "function"@, "arguments"@)
    } else if t.kind_is_spec(i, "preproc_function_def"@) {
        name_and_paren_spec(t, i, "name"@, "parameters"@)
    } else {
        None
    }
}

/// Whether node `i` has bytes between its name and its opening parenthesis.
pub open spec fn has_paren_gap(t: SyntaxTree, i: int) -> bool {
    paren_pair(t, i) matches Some((f, p)) && t.nodes[f].end < t.nodes[p].start
}

/// The nodes with a gap before their parenthesis, in document order.
pub open spec fn paren_gaps(t: SyntaxTree) -> Seq<int> {
    indices_where(t.nodes.len() as int, |i: int| has_paren_gap(t, i))
}

/// Rule III:F.
pub struct Rule3f {}

impl Rule3f {
    /// The rule's description.
    pub open spec fn description() -> RuleDescription {
        RuleDescription {
            group_number: 3,
            letter: 'F',
            code: "III:F",
            name: "FunctionParenthesis",
            description: "no space may separate a function name from its parenthesis",
        }
    }

    /// Returns the rule's description.
    pub fn describe(&self) -> (r: RuleDescription)
        ensures
            r == Self::description(),
    {
        RuleDescription {
            group_number: 3,
            letter: 'F',
            code: "III:F",
            name: "FunctionParenthesis",
            description: "no space may separate a function name from its parenthesis",
        }
    }

    /// For node `i`, the child under `name_field` and the opening parenthesis that
    /// begins its child under `list_field`, where `i` has both.
    fn name_and_paren(&self, source: &SourceInfo, i: usize, name_field: &str, list_field: &str) -> (r: Option<(usize, usize)>)
        requires
            source.wf(),
            i < source.tree.nodes.len(),
        ensures
            r matches Some((f, p)) ==> f < source.tree.nodes.len() && p < source.tree.nodes.len()
                && source.tree.kind_is_spec(p as int, "("@),
            r is Some <==> name_and_paren_spec(source.tree, i as int, name_field@, list_field@) is Some,
            r matches Some((f, p)) ==> name_and_paren_spec(source.tree, i as int, name_field@, list_field@)
                == Some((f as int, p as int)),
    {
        let tree = &source.tree;
        let f = match tree.child_by_field(i, name_field) {
            Some(f) => f,
            None => {
                return None;
            },
        };
        let list = match tree.child_by_field(i, list_field) {
            Some(l) => l,
            None => {
                return None;
            },
        };
        match tree.first_child(list) {
            Some(p) => {
                if tree.kind_is(p, "(") {
                    Some((f, p))
                } else {
                    None
                }
            },
            None => None,
        }
    }

    /// What `check` returns on `source`.
    pub open spec fn checked(&self, source: SourceInfo, r: Seq<Diagnostic>) -> bool {
        &&& r.len() == paren_gaps(source.tree).len()
        &&& forall|k: int| 0 <= k < r.len() ==> {
            let d = #[trigger] r[k];
            let (f, p) = paren_pair(source.tree, paren_gaps(source.tree)[k])->0;
            &&& d.rule == Self::description()
            &&& d.ranges_consistent_with(source.text())
            &&& d.violations.len() == 1
            &&& d.references.len() == 0
            &&& d.violations[0].range.bytes.start == source.tree.nodes[f].end
            &&& d.violations[0].range.bytes.end == source.tree.nodes[p].start
            &&& d.message@ == "Expected no space between function and parenthesis"@
            &&& d.plain()
        }
    }

    /// One diagnostic per function declarator, call and function-like macro whose
    /// name ends before its opening parenthesis starts, in document order, with one
    /// violation over the gap.
    pub fn check(&self, source: &SourceInfo) -> (r: Vec<Diagnostic>)
        requires
            source.wf(),
        ensures
            self.checked(*source, r@),
            r.len() == paren_gaps(source.tree).len(),
            forall|k: int| 0 <= k < r.len() ==> {
                let d = #[trigger] r[k];
                let (f, p) = paren_pair(source.tree, paren_gaps(source.tree)[k])->0;
                &&& d.rule == Self::description()
                &&& d.ranges_consistent_with(source.text())
                &&& d.violations.len() == 1
                &&& d.references.len() == 0
                &&& d.violations[0].range.bytes.start == source.tree.nodes[f].end
                &&& d.violations[0].range.bytes.end == source.tree.nodes[p].start
            &&& d.message@ == "Expected no space between function and parenthesis"@
            &&& d.plain()
            },
    {
        let tree = &source.tree;
        let ghost pred = |i: int| has_paren_gap(*tree, i);
        let mut diags: Vec<Diagnostic> = Vec::new();
        let mut i: usize = 0;
        while i < tree.nodes.len()
            invariant
                source.wf(),
                tree == &source.tree,
                i <= tree.nodes.len(),
                pred == (|i: int| has_paren_gap(*tree, i)),
                diags.len() == indices_where(i as int, pred).len(),
                forall|k: int| 0 <= k < diags.len() ==> {
                    let d = #[trigger] diags[k];
                    let (f, p) = paren_pair(*tree, indices_where(i as int, pred)[k])->0;
                    &&& d.rule == Self::description()
                    &&& d.ranges_consistent_with(source.text())
                    &&& d.violations.len() == 1
                    &&& d.references.len() == 0
                    &&& d.violations[0].range.bytes.start == tree.nodes[f].end
                    &&& d.violations[0].range.bytes.end == tree.nodes[p].start
                    &&& d.message@ == "Expected no space between function and parenthesis"@
                    &&& d.plain()
                },
            decreases tree.nodes.len() - i,
        {
            let found = if tree.kind_is(i, "function_declarator") {
                self.name_and_paren(source, i, "declarator", "parameters")
            } else if tree.kind_is(i, "call_expression") {
                self.name_and_paren(source, i, "function", "arguments")
            } else if tree.kind_is(i, "preproc_function_def") {
                self.name_and_paren(source, i, "name", "parameters")
            } else {
                None
            };
            assert(found is Some <==> paren_pair(*tree, i as int) is Some);
            match found {
                Some((f, p)) => {
                    assert(paren_pair(*tree, i as int) == Some((f as int, p as int)));
                    assert(tree.node_wf(f as int));
                    assert(tree.node_wf(p as int));
                    let gap_start = tree.nodes[f].end;
                    let gap_end = tree.nodes[p].start;
                    if gap_start < gap_end {
                        let range = SourceRange::from_byte_range(gap_start..gap_end, source);
                        let d = Diagnostic::new(self.describe(), "Expected no space between function and parenthesis".to_owned())
                            .with_violation(Span::new(source.filename.as_str(), range, String::new()));
                        diags.push(d);
                    }
                },
                None => {},
            }
            i = i + 1;
        }
        diags
    }
}

} // verus!
