//! Rule III:C: one space after internal commas and semicolons.

use vstd::prelude::*;
use crate::diagnostic::{Diagnostic, RuleDescription, SourceRange, Span};
use crate::lines::position_at;
use crate::rules::indices_where;
use crate::rules::rule03a::{is_single_space, single_space_between};
use crate::source::SourceInfo;
use crate::syntax::SyntaxTree;

verus! {

/// The first named node of `chain`.
pub open spec fn first_named(t: SyntaxTree, chain: Seq<int>) -> Option<int>
    decreases chain.len(),
{
    if chain.len() == 0 {
        None
    } else if t.nodes[chain[0]].named {
        Some(chain[0])
    } else {
        first_named(t, chain.drop_first())
    }
}

/// The next named sibling of node `i`.
pub open spec fn next_named_spec(t: SyntaxTree, i: int) -> Option<int> {
    match t.next_sibling[i] {
        Some(n) => first_named(t, t.sibling_chain(n as int)),
        None => None,
    }
}

/// Whether node `p` holds comma-separated lists whose commas are checked.
pub open spec fn is_comma_parent(t: SyntaxTree, p: int) -> bool {
    t.kind_is_spec(p, "argument_list"@) || t.kind_is_spec(p, "parameter_list"@)
        || t.kind_is_spec(p, "comma_expression"@) || t.kind_is_spec(p, "initializer_list"@)
        || t.kind_is_spec(p, "enumerator_list"@) || t.kind_is_spec(p, "preproc_params"@)
        || t.kind_is_spec(p, "declaration"@) || t.kind_is_spec(p, "type_definition"@)
        || t.kind_is_spec(p, "attribute_declaration"@)
}

/// If node `i` is an internal comma or semicolon, it and the token that follows it.
pub open spec fn delimiter_pair_spec(t: SyntaxTree, i: int) -> Option<(int, int)> {
    match t.nodes[i].parent {
        None => None,
        Some(p) => {
            let p = p as int;
            let next = if t.kind_is_spec(i, ","@) {
                if is_comma_parent(t, p) { next_named_spec(t, i) } else { None }
            } else if !t.kind_is_spec(i, ";"@) {
                None
            } else if t.kind_is_spec(p, "for_statement"@) {
                next_named_spec(t, i)
            } else if t.next_sibling[i] is Some {
                None
            } else if (t.kind_is_spec(p, "declaration"@) && t.field_is_spec(p, "initializer"@)
                && t.has_parent_spec(p, "for_statement"@)) || (t.kind_is_spec(p, "field_declaration"@)
                && t.has_parent_spec(p, "field_declaration_list"@)) {
                next_named_spec(t, p)
            } else {
                None
            };
            match next {
                Some(n) => Some((i, n)),
                None => None,
            }
        },
    }
}

/// Whether delimiter pair `(d, n)` breaks the rule: on one row, and not exactly one
/// space apart.
pub open spec fn badly_spaced(s: Seq<char>, t: SyntaxTree, d: int, n: int) -> bool {
    let a = t.nodes[d].end as int;
    let b = t.nodes[n].start as int;
    &&& position_at(s, a).0 == position_at(s, b).0
    &&& !is_single_space(s, a, b)
    &&& t.nodes[d].start <= t.nodes[n].start
}

/// Whether node `i` is a delimiter followed on its row by a badly spaced token.
pub open spec fn delimiter_fires(s: Seq<char>, t: SyntaxTree, i: int) -> bool {
    delimiter_pair_spec(t, i) matches Some((d, n)) && badly_spaced(s, t, d, n)
}

/// The badly spaced delimiters, in document order.
pub open spec fn bad_delimiters(s: Seq<char>, t: SyntaxTree) -> Seq<int> {
    indices_where(t.nodes.len() as int, |i: int| delimiter_fires(s, t, i))
}

/// The next named sibling of node `i`.
pub fn next_named_sibling(tree: &SyntaxTree, i: usize) -> (r: Option<usize>)
    requires
        tree.wf(),
        i < tree.nodes.len(),
    ensures
        r matches Some(n) ==> i < n < tree.nodes.len() && tree.nodes[n as int].named,
        r is Some <==> next_named_spec(*tree, i as int) is Some,
        r matches Some(n) ==> next_named_spec(*tree, i as int) == Some(n as int),
{
    assert(tree.node_wf(i as int));
    let mut cur = tree.next_sibling[i];
    while cur.is_some()
        invariant
            tree.wf(),
            cur matches Some(c) ==> i < c < tree.nodes.len(),
            next_named_spec(*tree, i as int) == (match cur {
                Some(c) => first_named(*tree, tree.sibling_chain(c as int)),
                None => None,
            }),
        decreases (match cur { Some(c) => tree.nodes.len() - c, None => 0 }),
    {
        let c = cur.unwrap();
        assert(tree.node_wf(c as int));
        assert(tree.sibling_chain(c as int)[0] == c as int);
        if tree.nodes[c].named {
            return Some(c);
        }
        assert(first_named(*tree, tree.sibling_chain(c as int)) == first_named(*tree, tree.sibling_chain(c as int).drop_first()));
        cur = tree.next_sibling[c];
        assert(tree.sibling_chain(c as int).drop_first() =~= (match cur {
            Some(n) => tree.sibling_chain(n as int),
            None => Seq::<int>::empty(),
        }));
    }
    None
}

/// Rule III:C.
pub struct Rule3c {}

impl Rule3c {
    /// The rule's description.
    pub open spec fn description() -> RuleDescription {
        RuleDescription {
            group_number: 3,
            letter: 'C',
            code: "III:C",
            name: "DelimiterSpacing",
            description: "one space must follow internal commas and semicolons",
        }
    }

    /// Returns the rule's description.
    pub fn describe(&self) -> (r: RuleDescription)
        ensures
            r == Self::description(),
    {
        RuleDescription {
            group_number: 3,
            letter: 'C',
            code: "III:C",
            name: "DelimiterSpacing",
            description: "one space must follow internal commas and semicolons",
        }
    }

    /// If node `i` is an internal delimiter, the delimiter and the token after it.
    fn delimiter_pair(&self, tree: &SyntaxTree, i: usize) -> (r: Option<(usize, usize)>)
        requires
            tree.wf(),
            i < tree.nodes.len(),
        ensures
            r matches Some((d, n)) ==> d < tree.nodes.len() && n < tree.nodes.len(),
            r is Some <==> delimiter_pair_spec(*tree, i as int) is Some,
            r matches Some((d, n)) ==> delimiter_pair_spec(*tree, i as int) == Some((d as int, n as int)),
    {
        assert(tree.node_wf(i as int));
        let parent = match tree.nodes[i].parent {
            Some(p) => p,
            None => {
                return None;
            },
        };
        if tree.kind_is(i, ",") {
            if tree.kind_is(parent, "argument_list") || tree.kind_is(parent, "parameter_list")
                || tree.kind_is(parent, "comma_expression") || tree.kind_is(parent, "initializer_list")
                || tree.kind_is(parent, "enumerator_list") || tree.kind_is(parent, "preproc_params")
                || tree.kind_is(parent, "declaration") || tree.kind_is(parent, "type_definition")
                || tree.kind_is(parent, "attribute_declaration") {
                return match next_named_sibling(tree, i) {
                    Some(n) => Some((i, n)),
                    None => None,
                };
            }
            return None;
        }
        if !tree.kind_is(i, ";") {
            return None;
        }
        if tree.kind_is(parent, "for_statement") {
            return match next_named_sibling(tree, i) {
                Some(n) => Some((i, n)),
                None => None,
            };
        }
        // The `;` that ends a `for` initializer or a struct field: the next token is the
        // one after its parent.
        if tree.next_sibling[i].is_some() {
            return None;
        }
        let inner_for = tree.kind_is(parent, "declaration") && tree.field_is(parent, "initializer")
            && tree.has_parent(parent, "for_statement");
        let field = tree.kind_is(parent, "field_declaration") && tree.has_parent(parent, "field_declaration_list");
        if inner_for || field {
            match next_named_sibling(tree, parent) {
                Some(n) => Some((i, n)),
                None => None,
            }
        } else {
            None
        }
    }

    /// What `check` returns on `source`.
    pub open spec fn checked(&self, source: SourceInfo, r: Seq<Diagnostic>) -> bool {
        &&& r.len() == bad_delimiters(source.text(), source.tree).len()
        &&& forall|k: int| 0 <= k < r.len() ==> {
            let d = #[trigger] r[k];
            let (delim, next) = delimiter_pair_spec(source.tree, bad_delimiters(source.text(), source.tree)[k])->0;
            &&& d.rule == Self::description()
            &&& d.ranges_consistent_with(source.text())
            &&& d.violations.len() == 1
            &&& d.violations[0].range.bytes.start == source.tree.nodes[delim].start
            &&& d.violations[0].range.bytes.end == source.tree.nodes[next].start
            &&& d.message@ == "Expected one space after internal commas and semicolons"@
            &&& d.plain()
        }
    }

    /// One diagnostic per internal comma or semicolon followed on the same line by a
    /// token that is not exactly one space away, in document order, with a violation
    /// from the delimiter to that token.
    pub fn check(&self, source: &SourceInfo) -> (r: Vec<Diagnostic>)
        requires
            source.wf(),
        ensures
            self.checked(*source, r@),
            r.len() == bad_delimiters(source.text(), source.tree).len(),
            forall|k: int| 0 <= k < r.len() ==> {
                let d = #[trigger] r[k];
                let (delim, next) = delimiter_pair_spec(source.tree, bad_delimiters(source.text(), source.tree)[k])->0;
                &&& d.rule == Self::description()
                &&& d.ranges_consistent_with(source.text())
                &&& d.violations.len() == 1
                &&& d.violations[0].range.bytes.start == source.tree.nodes[delim].start
                &&& d.violations[0].range.bytes.end == source.tree.nodes[next].start
            &&& d.message@ == "Expected one space after internal commas and semicolons"@
            &&& d.plain()
            },
    {
        let tree = &source.tree;
        let ghost s = source.text();
        let ghost pred = |i: int| delimiter_fires(s, *tree, i);
        let mut diags: Vec<Diagnostic> = Vec::new();
        let mut i: usize = 0;
        while i < tree.nodes.len()
            invariant
                source.wf(),
                tree == &source.tree,
                s == source.text(),
                i <= tree.nodes.len(),
                pred == (|i: int| delimiter_fires(s, *tree, i)),
                diags.len() == indices_where(i as int, pred).len(),
                forall|k: int| 0 <= k < diags.len() ==> {
                    let d = #[trigger] diags[k];
                    let (delim, next) = delimiter_pair_spec(*tree, indices_where(i as int, pred)[k])->0;
                    &&& d.rule == Self::description()
                    &&& d.ranges_consistent_with(s)
                    &&& d.violations.len() == 1
                    &&& d.violations[0].range.bytes.start == tree.nodes[delim].start
                    &&& d.violations[0].range.bytes.end == tree.nodes[next].start
                    &&& d.message@ == "Expected one space after internal commas and semicolons"@
                    &&& d.plain()
                },
            decreases tree.nodes.len() - i,
        {
            match self.delimiter_pair(tree, i) {
                Some((d, n)) => {
                    assert(tree.node_wf(d as int));
                    assert(tree.node_wf(n as int));
                    let (a, b) = (tree.nodes[d].end, tree.nodes[n].start);
                    if source.index.position(a).0 == source.index.position(b).0
                        && !single_space_between(source, a, b) && tree.nodes[d].start <= b {
                        let range = SourceRange::from_byte_range(tree.nodes[d].start..b, source);
                        let diag = Diagnostic::new(self.describe(), "Expected one space after internal commas and semicolons".to_owned())
                            .with_violation(Span::new(source.filename.as_str(), range, String::new()));
                        diags.push(diag);
                    }
                },
                None => {},
            }
            i = i + 1;
        }
        diags
    }
}

} // verus!
