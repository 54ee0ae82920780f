//! Rule XI:E: do not use `goto`.

use vstd::prelude::*;
use crate::diagnostic::{Diagnostic, RuleDescription, SourceRange, Span};
use crate::rules::indices_where;
use crate::source::SourceInfo;
use crate::syntax::SyntaxTree;

verus! {

/// The `goto` statements of tree `t`, in document order.
pub open spec fn gotos(t: SyntaxTree) -> Seq<int> {
    indices_where(t.nodes.len() as int, |i: int| t.kind_is_spec(i, "goto_statement"@))
}

/// Rule XI:E.
pub struct Rule11e {}

impl Rule11e {
    /// The rule's description.
    pub open spec fn description() -> RuleDescription {
        RuleDescription {
            group_number: 11,
            letter: 'E',
            code: "XI:E",
            name: "NoGoto",
            description: "do not use goto",
        }
    }

    /// Returns the rule's description.
    pub fn describe(&self) -> (r: RuleDescription)
        ensures
            r == Self::description(),
    {
        RuleDescription {
            group_number: 11,
            letter: 'E',
            code: "XI:E",
            name: "NoGoto",
            description: "do not use goto",
        }
    }

    /// What `check` returns on `source`.
    pub open spec fn checked(&self, source: SourceInfo, r: Seq<Diagnostic>) -> bool {
        &&& r.len() == gotos(source.tree).len()
        &&& forall|k: int| 0 <= k < r.len() ==> {
            let d = #[trigger] r[k];
            let n = source.tree.nodes[gotos(source.tree)[k]];
            &&& d.rule == Self::description()
            &&& d.ranges_consistent_with(source.text())
            &&& d.violations.len() == 1
            &&& d.references.len() == 0
            &&& d.violations[0].range.bytes.start == n.start
            &&& d.violations[0].range.bytes.end == n.end
                &&& d.message@ == "Do not use `goto'"@
                &&& d.plain()
        }
    }

    /// One diagnostic per `goto` statement, in document order, with one violation over
    /// the statement.
    pub fn check(&self, source: &SourceInfo) -> (r: Vec<Diagnostic>)
        requires
            source.wf(),
        ensures
            self.checked(*source, r@),
            r.len() == gotos(source.tree).len(),
            forall|k: int| 0 <= k < r.len() ==> {
                let d = #[trigger] r[k];
                let n = source.tree.nodes[gotos(source.tree)[k]];
                &&& d.rule == Self::description()
                &&& d.ranges_consistent_with(source.text())
                &&& d.violations.len() == 1
                &&& d.references.len() == 0
                &&& d.violations[0].range.bytes.start == n.start
                &&& d.violations[0].range.bytes.end == n.end
                &&& d.message@ == "Do not use `goto'"@
                &&& d.plain()
            },
    {
        let tree = &source.tree;
        let ghost p = |i: int| tree.kind_is_spec(i, "goto_statement"@);
        let mut diags: Vec<Diagnostic> = Vec::new();
        let mut i: usize = 0;
        while i < tree.nodes.len()
            invariant
                source.wf(),
                tree == &source.tree,
                i <= tree.nodes.len(),
                p == (|i: int| tree.kind_is_spec(i, "goto_statement"@)),
                diags.len() == indices_where(i as int, p).len(),
                forall|m: int| 0 <= m < diags.len() ==> {
                    let d = #[trigger] diags[m];
                    let n = tree.nodes[indices_where(i as int, p)[m]];
                    &&& d.rule == Self::description()
                    &&& d.ranges_consistent_with(source.text())
                    &&& d.violations.len() == 1
                    &&& d.references.len() == 0
                    &&& d.violations[0].range.bytes.start == n.start
                    &&& d.violations[0].range.bytes.end == n.end
                &&& d.message@ == "Do not use `goto'"@
                &&& d.plain()
                },
            decreases tree.nodes.len() - i,
        {
            assert(tree.node_wf(i as int));
            if tree.kind_is(i, "goto_statement") {
                let range = SourceRange::from_byte_range(tree.nodes[i].start..tree.nodes[i].end, source);
                let d = Diagnostic::new(self.describe(), "Do not use `goto'".to_owned())
                    .with_violation(Span::new(source.filename.as_str(), range, String::new()));
                diags.push(d);
            }
            i = i + 1;
        }
        diags
    }
}

} // verus!
