//! Rule XII:A: at most one variable may be defined on a single line.

use vstd::prelude::*;
use crate::diagnostic::{Diagnostic, RuleDescription, SourceRange, Span};
use crate::lines::char_index_at;
use crate::rules::indices_where;
use crate::source::SourceInfo;
use crate::syntax::SyntaxTree;
use crate::text::str_eq;

verus! {

/// Whether the chain of `declarator` fields from node `i` reaches a function declarator.
pub open spec fn is_function_declaration_spec(t: SyntaxTree, i: int) -> bool
    decreases t.nodes.len() - i,
{
    if t.kind_is_spec(i, "function_declarator"@) {
        true
    } else {
        match t.child_by_field_spec(i, "declarator"@) {
            Some(c) => if i < c < t.nodes.len() {
                is_function_declaration_spec(t, c)
            } else {
                false
            },
            None => false,
        }
    }
}

/// The text of node `i`.
pub open spec fn node_text_spec(s: Seq<char>, t: SyntaxTree, i: int) -> Seq<char> {
    s.subrange(char_index_at(s, t.nodes[i].start as int), char_index_at(s, t.nodes[i].end as int))
}

/// Whether declaration `i` is checked: inside a function, or at file scope with a first
/// child other than `extern`.
pub open spec fn is_checked_spec(s: Seq<char>, t: SyntaxTree, i: int) -> bool {
    t.has_ancestor_spec(i, "function_definition"@) || (t.first_child_spec(i) matches Some(c)
        && node_text_spec(s, t, c) != "extern"@)
}

/// The declarators of declaration `i`, in order.
pub open spec fn declarators(t: SyntaxTree, i: int) -> Seq<int> {
    t.with_field(t.children_spec(i), "declarator"@)
}

/// Whether node `i` is a checked declaration, not of a function, with more than one
/// declarator.
pub open spec fn defines_several(s: Seq<char>, t: SyntaxTree, i: int) -> bool {
    &&& t.kind_is_spec(i, "declaration"@)
    &&& is_checked_spec(s, t, i)
    &&& !is_function_declaration_spec(t, i)
    &&& declarators(t, i).len() > 1
}

/// The declarations that define several variables, in document order.
pub open spec fn multiple_definitions(s: Seq<char>, t: SyntaxTree) -> Seq<int> {
    indices_where(t.nodes.len() as int, |i: int| defines_several(s, t, i))
}

/// Whether the chain of `declarator` fields from node `i` reaches a function
/// declarator (the declaration declares a function).
pub fn is_function_declaration(tree: &SyntaxTree, i: usize) -> (r: bool)
    requires
        tree.wf(),
        i < tree.nodes.len(),
    ensures
        r == is_function_declaration_spec(*tree, i as int),
{
    let mut cur: usize = i;
    loop
        invariant
            tree.wf(),
            i <= cur < tree.nodes.len(),
            is_function_declaration_spec(*tree, i as int) == is_function_declaration_spec(*tree, cur as int),
        decreases tree.nodes.len() - cur,
    {
        if tree.kind_is(cur, "function_declarator") {
            return true;
        }
        match tree.child_by_field(cur, "declarator") {
            Some(c) => {
                cur = c;
            },
            None => {
                return false;
            },
        }
    }
}

/// Rule XII:A.
pub struct Rule12a {}

impl Rule12a {
    /// The rule's description.
    pub open spec fn description() -> RuleDescription {
        RuleDescription {
            group_number: 12,
            letter: 'A',
            code: "XII:A",
            name: "MultipleDefinitions",
            description: "at most one variable may be defined on a single line",
        }
    }

    /// Returns the rule's description.
    pub fn describe(&self) -> (r: RuleDescription)
        ensures
            r == Self::description(),
    {
        RuleDescription {
            group_number: 12,
            letter: 'A',
            code: "XII:A",
            name: "MultipleDefinitions",
            description: "at most one variable may be defined on a single line",
        }
    }

    /// Whether declaration `i` is checked: it is inside a function, or it is at file
    /// scope and its first child is not `extern`.
    fn is_checked(&self, source: &SourceInfo, i: usize) -> (r: bool)
        requires
            source.wf(),
            i < source.tree.nodes.len(),
        ensures
            r == is_checked_spec(source.text(), source.tree, i as int),
    {
        let tree = &source.tree;
        if tree.has_ancestor(i, "function_definition") {
            return true;
        }
        match tree.first_child(i) {
            Some(c) => {
                let text = source.node_text(c);
                !str_eq(text.as_str(), "extern")
            },
            None => false,
        }
    }

    /// The declarators of declaration `i`.
    fn declarators_of(&self, tree: &SyntaxTree, i: usize) -> (r: Vec<usize>)
        requires
            tree.wf(),
            i < tree.nodes.len(),
        ensures
            r@.map_values(|x: usize| x as int) == declarators(*tree, i as int),
            forall|m: int| 0 <= m < r.len() ==> #[trigger] r[m] < tree.nodes.len(),
    {
        let kids = tree.children(i);
        let ghost ks = kids@.map_values(|x: usize| x as int);
        let mut decls: Vec<usize> = Vec::new();
        let mut k: usize = 0;
        assert(ks.skip(0) =~= ks);
        assert(decls@.map_values(|x: usize| x as int) + tree.with_field(ks.skip(0), "declarator"@) =~= declarators(*tree, i as int));
        while k < kids.len()
            invariant
                tree.wf(),
                k <= kids.len(),
                ks == kids@.map_values(|x: usize| x as int),
                forall|m: int| 0 <= m < kids.len() ==> #[trigger] kids[m] < tree.nodes.len(),
                forall|m: int| 0 <= m < decls.len() ==> #[trigger] decls[m] < tree.nodes.len(),
                decls@.map_values(|x: usize| x as int) + tree.with_field(ks.skip(k as int), "declarator"@)
                    == declarators(*tree, i as int),
            decreases kids.len() - k,
        {
            let ghost before = decls@;
            assert(ks.skip(k as int)[0] == kids[k as int] as int);
            assert(ks.skip(k as int).drop_first() =~= ks.skip(k + 1));
            if tree.field_is(kids[k], "declarator") {
                decls.push(kids[k]);
                assert(decls@.map_values(|x: usize| x as int) =~= before.map_values(|x: usize| x as int).push(kids[k as int] as int));
                assert(decls@.map_values(|x: usize| x as int) + tree.with_field(ks.skip(k + 1), "declarator"@)
                    =~= before.map_values(|x: usize| x as int) + tree.with_field(ks.skip(k as int), "declarator"@));
            }
            k = k + 1;
        }
        assert(ks.skip(k as int) =~= Seq::<int>::empty());
        assert(decls@.map_values(|x: usize| x as int) + Seq::<int>::empty() =~= decls@.map_values(|x: usize| x as int));
        decls
    }

    /// What `check` returns on `source`.
    pub open spec fn checked(&self, source: SourceInfo, r: Seq<Diagnostic>) -> bool {
        &&& r.len() == multiple_definitions(source.text(), source.tree).len()
        &&& forall|k: int| 0 <= k < r.len() ==> {
            let d = #[trigger] r[k];
            let decls = declarators(source.tree, multiple_definitions(source.text(), source.tree)[k]);
            &&& d.rule == Self::description()
            &&& d.ranges_consistent_with(source.text())
            &&& d.references.len() == 1
                &&& d.message@ == "No more than one variable may be defined on a single line."@
            &&& d.references[0].range.bytes.start == source.tree.nodes[decls[0]].start
            &&& d.references[0].range.bytes.end == source.tree.nodes[decls[0]].end
            &&& d.violations.len() == decls.len() - 1
                &&& d.notes.len() == 0
                &&& d.suggestion is None
                &&& d.references[0].label@ == "First definition here"@
                &&& forall|m: int| 0 <= m < d.violations.len() ==> (#[trigger] d.violations[m]).label@ == "Additional definition here"@
            &&& forall|m: int| 0 <= m < d.violations.len() ==> (#[trigger] d.violations[m]).range.bytes.start
                == source.tree.nodes[decls[m + 1]].start && d.violations[m].range.bytes.end
                == source.tree.nodes[decls[m + 1]].end
        }
    }

    /// One diagnostic per checked declaration, not of a function, with more than one
    /// declarator, in document order: a reference on the first declarator and a
    /// violation on each other one.
    pub fn check(&self, source: &SourceInfo) -> (r: Vec<Diagnostic>)
        requires
            source.wf(),
        ensures
            self.checked(*source, r@),
            r.len() == multiple_definitions(source.text(), source.tree).len(),
            forall|k: int| 0 <= k < r.len() ==> {
                let d = #[trigger] r[k];
                let decls = declarators(source.tree, multiple_definitions(source.text(), source.tree)[k]);
                &&& d.rule == Self::description()
                &&& d.ranges_consistent_with(source.text())
                &&& d.references.len() == 1
                &&& d.message@ == "No more than one variable may be defined on a single line."@
                &&& d.references[0].range.bytes.start == source.tree.nodes[decls[0]].start
                &&& d.references[0].range.bytes.end == source.tree.nodes[decls[0]].end
                &&& d.violations.len() == decls.len() - 1
                &&& d.notes.len() == 0
                &&& d.suggestion is None
                &&& d.references[0].label@ == "First definition here"@
                &&& forall|m: int| 0 <= m < d.violations.len() ==> (#[trigger] d.violations[m]).label@ == "Additional definition here"@
                &&& forall|m: int| 0 <= m < d.violations.len() ==> (#[trigger] d.violations[m]).range.bytes.start
                    == source.tree.nodes[decls[m + 1]].start && d.violations[m].range.bytes.end
                    == source.tree.nodes[decls[m + 1]].end
            },
    {
        let tree = &source.tree;
        let ghost s = source.text();
        let ghost pred = |i: int| defines_several(s, *tree, i);
        let filename = source.filename.as_str();
        let mut diags: Vec<Diagnostic> = Vec::new();
        let mut i: usize = 0;
        while i < tree.nodes.len()
            invariant
                source.wf(),
                tree == &source.tree,
                s == source.text(),
                i <= tree.nodes.len(),
                pred == (|i: int| defines_several(s, *tree, i)),
                diags.len() == indices_where(i as int, pred).len(),
                forall|k: int| 0 <= k < diags.len() ==> {
                    let d = #[trigger] diags[k];
                    let decls = declarators(*tree, indices_where(i as int, pred)[k]);
                    &&& d.rule == Self::description()
                    &&& d.ranges_consistent_with(s)
                    &&& d.references.len() == 1
                &&& d.message@ == "No more than one variable may be defined on a single line."@
                    &&& d.references[0].range.bytes.start == tree.nodes[decls[0]].start
                    &&& d.references[0].range.bytes.end == tree.nodes[decls[0]].end
                    &&& d.violations.len() == decls.len() - 1
                &&& d.notes.len() == 0
                &&& d.suggestion is None
                &&& d.references[0].label@ == "First definition here"@
                &&& forall|m: int| 0 <= m < d.violations.len() ==> (#[trigger] d.violations[m]).label@ == "Additional definition here"@
                    &&& forall|m: int| 0 <= m < d.violations.len() ==> (#[trigger] d.violations[m]).range.bytes.start
                        == tree.nodes[decls[m + 1]].start && d.violations[m].range.bytes.end
                        == tree.nodes[decls[m + 1]].end
                },
            decreases tree.nodes.len() - i,
        {
            if tree.kind_is(i, "declaration") && self.is_checked(source, i) && !is_function_declaration(tree, i) {
                let decls = self.declarators_of(tree, i);
                let ghost ds = declarators(*tree, i as int);
                assert(ds.len() == decls.len());
                if decls.len() > 1 {
                    let first = decls[0];
                    assert(ds[0] == first as int);
                    assert(tree.node_wf(first as int));
                    let range = SourceRange::from_byte_range(tree.nodes[first].start..tree.nodes[first].end, source);
                    let mut d = Diagnostic::new(self.describe(), "No more than one variable may be defined on a single line.".to_owned())
                        .with_reference(Span::new(filename, range, "First definition here".to_owned()));
                    let mut m: usize = 1;
                    while m < decls.len()
                        invariant
                            source.wf(),
                            tree == &source.tree,
                            s == source.text(),
                            1 <= m <= decls.len(),
                            ds == decls@.map_values(|x: usize| x as int),
                            forall|j: int| 0 <= j < decls.len() ==> #[trigger] decls[j] < tree.nodes.len(),
                            d.rule == Self::description(),
                            d.ranges_consistent_with(s),
                            d.references.len() == 1,
                            d.message@ == "No more than one variable may be defined on a single line."@,
                            d.references[0].range.bytes.start == tree.nodes[ds[0]].start,
                            d.references[0].range.bytes.end == tree.nodes[ds[0]].end,
                            d.violations.len() == m - 1,
                            d.notes.len() == 0,
                            d.suggestion is None,
                            d.references[0].label@ == "First definition here"@,
                            forall|j: int| 0 <= j < d.violations.len() ==> (#[trigger] d.violations[j]).label@ == "Additional definition here"@,
                            forall|j: int| 0 <= j < d.violations.len() ==> (#[trigger] d.violations[j]).range.bytes.start
                                == tree.nodes[ds[j + 1]].start && d.violations[j].range.bytes.end
                                == tree.nodes[ds[j + 1]].end,
                        decreases decls.len() - m,
                    {
                        let n = decls[m];
                        assert(ds[m as int] == n as int);
                        assert(tree.node_wf(n as int));
                        let range = SourceRange::from_byte_range(tree.nodes[n].start..tree.nodes[n].end, source);
                        d = d.with_violation(Span::new(filename, range, "Additional definition here".to_owned()));
                        m = m + 1;
                    }
                    diags.push(d);
                }
            }
            i = i + 1;
        }
        diags
    }
}

} // verus!
