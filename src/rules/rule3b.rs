//! Rule III:B: spacing around operators.

use vstd::prelude::*;
use crate::diagnostic::{Diagnostic, RuleDescription, SourceRange, Span};
use crate::lines::position_at;
use crate::rules::rule03a::{is_single_space, single_space_between};
use crate::syntax::SyntaxTree;
use crate::source::SourceInfo;

verus! {

/// A report over bytes `a..b` with message `m`, where the range is not reversed.
pub open spec fn span_if(a: int, b: int, m: Seq<char>) -> Option<(int, int, Seq<char>)> {
    if a <= b {
        Some((a, b, m))
    } else {
        None
    }
}

/// The report for binary operator `o` between `l` and `r`, if any.
pub open spec fn binary_report(s: Seq<char>, t: SyntaxTree, l: int, o: int, r: int) -> Option<(int, int, Seq<char>)> {
    let le = t.nodes[l].end as int;
    let os = t.nodes[o].start as int;
    let oe = t.nodes[o].end as int;
    let rs = t.nodes[r].start as int;
    let left_bad = position_at(s, le).0 == position_at(s, os).0 && !is_single_space(s, le, os);
    let right_bad = position_at(s, oe).0 == position_at(s, rs).0 && !is_single_space(s, oe, rs);
    if left_bad && right_bad {
        span_if(le, rs, "Expected a single space on each side of binary operator"@)
    } else if left_bad {
        span_if(le, oe, "Expected a single space before binary operator"@)
    } else if right_bad {
        span_if(os, rs, "Expected a single space after binary operator"@)
    } else {
        None
    }
}

/// The report for field access operator `o` between `l` and `r`, if any.
pub open spec fn field_report(t: SyntaxTree, l: int, o: int, r: int) -> Option<(int, int, Seq<char>)> {
    let le = t.nodes[l].end as int;
    let os = t.nodes[o].start as int;
    let oe = t.nodes[o].end as int;
    let rs = t.nodes[r].start as int;
    if le != os && oe != rs {
        span_if(le, rs, "Expected no space around field access operator"@)
    } else if le != os {
        span_if(le, os, "Expected no space before field access operator"@)
    } else if oe != rs {
        span_if(oe, rs, "Expected no space after field access operator"@)
    } else {
        None
    }
}

/// The report for a gap between the end of `a` and the start of `b`, if any.
pub open spec fn gap_report(t: SyntaxTree, a: int, b: int, m: Seq<char>) -> Option<(int, int, Seq<char>)> {
    if t.nodes[a].end != t.nodes[b].start {
        span_if(t.nodes[a].end as int, t.nodes[b].start as int, m)
    } else {
        None
    }
}

/// The first node of `kids` of kind `k`.
pub open spec fn first_of_kind(t: SyntaxTree, kids: Seq<int>, k: Seq<char>) -> Option<int>
    decreases kids.len(),
{
    if kids.len() == 0 {
        None
    } else if t.kind_is_spec(kids[0], k) {
        Some(kids[0])
    } else {
        first_of_kind(t, kids.drop_first(), k)
    }
}

/// The operator and operand of a unary operator, pointer operator or pointer
/// declarator `i`.
pub open spec fn unary_parts(t: SyntaxTree, i: int) -> Option<(int, int)> {
    if t.kind_is_spec(i, "pointer_declarator"@) {
        match first_of_kind(t, t.children_spec(i), "*"@) {
            Some(star) => match t.next_sibling[star] {
                Some(n) => Some((star, n as int)),
                None => None,
            },
            None => None,
        }
    } else {
        match (t.child_by_field_spec(i, "operator"@), t.child_by_field_spec(i, "argument"@)) {
            (Some(o), Some(n)) => Some((o, n)),
            _ => None,
        }
    }
}

/// The report, if any, that node `i` gives in pass `pass` (binary operators, unary
/// operators, array subscripts, field accesses).
pub open spec fn operator_report(s: Seq<char>, t: SyntaxTree, i: int, pass: int) -> Option<(int, int, Seq<char>)> {
    if pass == 0 && t.kind_is_spec(i, "binary_expression"@) {
        match (t.child_by_field_spec(i, "left"@), t.child_by_field_spec(i, "operator"@), t.child_by_field_spec(i, "right"@)) {
            (Some(l), Some(o), Some(r)) => binary_report(s, t, l, o, r),
            _ => None,
        }
    } else if pass == 1 && (t.kind_is_spec(i, "unary_expression"@) || t.kind_is_spec(i, "pointer_expression"@)
        || t.kind_is_spec(i, "pointer_declarator"@)) {
        match unary_parts(t, i) {
            Some((o, n)) => gap_report(t, o, n, "Expected no space after unary operator"@),
            None => None,
        }
    } else if pass == 2 && (t.kind_is_spec(i, "array_declarator"@) || t.kind_is_spec(i, "subscript_expression"@)) {
        let prev = if t.kind_is_spec(i, "array_declarator"@) {
            t.child_by_field_spec(i, "declarator"@)
        } else {
            t.child_by_field_spec(i, "argument"@)
        };
        match (prev, first_of_kind(t, t.children_spec(i), "["@)) {
            (Some(p), Some(b)) => gap_report(t, p, b, "Expected no space before array subscript"@),
            _ => None,
        }
    } else if pass == 3 && t.kind_is_spec(i, "field_expression"@) {
        match (t.child_by_field_spec(i, "argument"@), t.child_by_field_spec(i, "operator"@), t.child_by_field_spec(i, "field"@)) {
            (Some(l), Some(o), Some(r)) => field_report(t, l, o, r),
            _ => None,
        }
    } else {
        None
    }
}

/// The reports of passes before `pass` over all nodes, then of pass `pass` over the
/// nodes before `n`, in order: each a node and its pass.
pub open spec fn operator_findings(s: Seq<char>, t: SyntaxTree, pass: int, n: int) -> Seq<(int, int)>
    decreases pass, n,
{
    if pass < 0 {
        Seq::empty()
    } else if n <= 0 {
        if pass == 0 {
            Seq::empty()
        } else {
            operator_findings(s, t, pass - 1, t.nodes.len() as int)
        }
    } else {
        operator_findings(s, t, pass, n - 1)
            + if operator_report(s, t, n - 1, pass) is Some { seq![(n - 1, pass)] } else { Seq::empty() }
    }
}

/// Whether `d` is the report of node `f.0` in pass `f.1`.
pub open spec fn reports_operator(d: Diagnostic, s: Seq<char>, t: SyntaxTree, f: (int, int)) -> bool {
    let (a, b, m) = operator_report(s, t, f.0, f.1)->0;
    &&& d.rule == Rule3b::description()
    &&& d.ranges_consistent_with(s)
    &&& d.violations.len() == 1
    &&& d.violations[0].range.bytes.start == a
    &&& d.violations[0].range.bytes.end == b
    &&& d.message@ == m
    &&& d.plain()
}

/// Rule III:B.
pub struct Rule3b {}

impl Rule3b {
    /// The rule's description.
    pub open spec fn description() -> RuleDescription {
        RuleDescription {
            group_number: 3,
            letter: 'B',
            code: "III:B",
            name: "OperatorSpacing",
            description: "operators must be spaced consistently",
        }
    }

    /// Returns the rule's description.
    pub fn describe(&self) -> (r: RuleDescription)
        ensures
            r == Self::description(),
    {
        RuleDescription {
            group_number: 3,
            letter: 'B',
            code: "III:B",
            name: "OperatorSpacing",
            description: "operators must be spaced consistently",
        }
    }

    /// A diagnostic with `message` and one violation over bytes `a..b`.
    fn report(&self, source: &SourceInfo, a: usize, b: usize, message: &str) -> (r: Option<Diagnostic>)
        requires
            source.wf(),
            b <= source.byte_len(),
        ensures
            r is Some <==> a <= b,
            r matches Some(d) ==> d.rule == Self::description() && d.ranges_consistent_with(source.text())
                && d.violations.len() == 1 && d.violations[0].range.bytes.start == a
                && d.violations[0].range.bytes.end == b && d.message@ == message@ && d.plain(),
    {
        if a > b {
            return None;
        }
        let range = SourceRange::from_byte_range(a..b, source);
        Some(Diagnostic::new(self.describe(), message.to_owned())
            .with_violation(Span::new(source.filename.as_str(), range, String::new())))
    }

    /// Binary operator `op` between `left` and `right`: one space on each side that
    /// shares a row with the operator.
    pub fn check_binary_op_spacing(&self, source: &SourceInfo, op: usize, left: usize, right: usize) -> (r: Option<Diagnostic>)
        requires
            source.wf(),
            op < source.tree.nodes.len(),
            left < source.tree.nodes.len(),
            right < source.tree.nodes.len(),
        ensures
            r is Some <==> binary_report(source.text(), source.tree, left as int, op as int, right as int) is Some,
            r matches Some(d) ==> ({
                let (a, b, m) = binary_report(source.text(), source.tree, left as int, op as int, right as int)->0;
                d.rule == Self::description() && d.ranges_consistent_with(source.text())
                    && d.violations.len() == 1 && d.violations[0].range.bytes.start == a
                    && d.violations[0].range.bytes.end == b && d.message@ == m && d.plain()
            }),
    {
        let tree = &source.tree;
        assert(tree.node_wf(op as int));
        assert(tree.node_wf(left as int));
        assert(tree.node_wf(right as int));
        let (l, o, rt) = (&tree.nodes[left], &tree.nodes[op], &tree.nodes[right]);
        let left_bad = source.index.position(l.end).0 == source.index.position(o.start).0
            && !single_space_between(source, l.end, o.start);
        let right_bad = source.index.position(o.end).0 == source.index.position(rt.start).0
            && !single_space_between(source, o.end, rt.start);
        if left_bad && right_bad {
            self.report(source, l.end, rt.start, "Expected a single space on each side of binary operator")
        } else if left_bad {
            self.report(source, l.end, o.end, "Expected a single space before binary operator")
        } else if right_bad {
            self.report(source, o.start, rt.start, "Expected a single space after binary operator")
        } else {
            None
        }
    }

    /// Field access operator `op` between `left` and `right`: no space on either side.
    pub fn check_field_op_spacing(&self, source: &SourceInfo, op: usize, left: usize, right: usize) -> (r: Option<Diagnostic>)
        requires
            source.wf(),
            op < source.tree.nodes.len(),
            left < source.tree.nodes.len(),
            right < source.tree.nodes.len(),
        ensures
            r is Some <==> field_report(source.tree, left as int, op as int, right as int) is Some,
            r matches Some(d) ==> ({
                let (a, b, m) = field_report(source.tree, left as int, op as int, right as int)->0;
                d.rule == Self::description() && d.ranges_consistent_with(source.text())
                    && d.violations.len() == 1 && d.violations[0].range.bytes.start == a
                    && d.violations[0].range.bytes.end == b && d.message@ == m && d.plain()
            }),
    {
        let tree = &source.tree;
        assert(tree.node_wf(op as int));
        assert(tree.node_wf(left as int));
        assert(tree.node_wf(right as int));
        let (l, o, rt) = (&tree.nodes[left], &tree.nodes[op], &tree.nodes[right]);
        let left_bad = l.end != o.start;
        let right_bad = o.end != rt.start;
        if left_bad && right_bad {
            self.report(source, l.end, rt.start, "Expected no space around field access operator")
        } else if left_bad {
            self.report(source, l.end, o.start, "Expected no space before field access operator")
        } else if right_bad {
            self.report(source, o.end, rt.start, "Expected no space after field access operator")
        } else {
            None
        }
    }

    /// The first child of node `i` of kind `k`.
    fn child_of_kind(&self, source: &SourceInfo, i: usize, k: &str) -> (r: Option<usize>)
        requires
            source.wf(),
            i < source.tree.nodes.len(),
        ensures
            r matches Some(c) ==> c < source.tree.nodes.len(),
            r is Some <==> first_of_kind(source.tree, source.tree.children_spec(i as int), k@) is Some,
            r matches Some(c) ==> first_of_kind(source.tree, source.tree.children_spec(i as int), k@) == Some(c as int),
    {
        let tree = &source.tree;
        let kids = tree.children(i);
        let ghost ks = kids@.map_values(|x: usize| x as int);
        let mut m: usize = 0;
        assert(ks.skip(0) =~= ks);
        while m < kids.len()
            invariant
                tree.wf(),
                tree == &source.tree,
                m <= kids.len(),
                ks == kids@.map_values(|x: usize| x as int),
                ks == tree.children_spec(i as int),
                forall|j: int| 0 <= j < kids.len() ==> #[trigger] kids[j] < tree.nodes.len(),
                first_of_kind(*tree, ks, k@) == first_of_kind(*tree, ks.skip(m as int), k@),
            decreases kids.len() - m,
        {
            assert(ks.skip(m as int)[0] == kids[m as int] as int);
            if tree.kind_is(kids[m], k) {
                return Some(kids[m]);
            }
            assert(ks.skip(m as int).drop_first() =~= ks.skip(m + 1));
            m = m + 1;
        }
        None
    }

    /// The diagnostic, if any, that node `i` gives in pass `pass`: binary operators,
    /// then unary and pointer operators, then array subscripts, then field accesses.
    fn check_node(&self, source: &SourceInfo, i: usize, pass: usize) -> (r: Option<Diagnostic>)
        requires
            source.wf(),
            i < source.tree.nodes.len(),
        ensures
            r is Some <==> operator_report(source.text(), source.tree, i as int, pass as int) is Some,
            r matches Some(d) ==> reports_operator(d, source.text(), source.tree, (i as int, pass as int)),
    {
        let tree = &source.tree;
        if pass == 0 && tree.kind_is(i, "binary_expression") {
            match (tree.child_by_field(i, "left"), tree.child_by_field(i, "operator"), tree.child_by_field(i, "right")) {
                (Some(l), Some(o), Some(r)) => self.check_binary_op_spacing(source, o, l, r),
                _ => None,
            }
        } else if pass == 1 && (tree.kind_is(i, "unary_expression") || tree.kind_is(i, "pointer_expression")
            || tree.kind_is(i, "pointer_declarator")) {
            let (op, next) = if tree.kind_is(i, "pointer_declarator") {
                match self.child_of_kind(source, i, "*") {
                    Some(star) => {
                        assert(tree.node_wf(star as int));
                        (Some(star), tree.next_sibling[star])
                    },
                    None => (None, None),
                }
            } else {
                (tree.child_by_field(i, "operator"), tree.child_by_field(i, "argument"))
            };
            match (op, next) {
                (Some(o), Some(n)) => {
                    assert(tree.node_wf(o as int));
                    assert(tree.node_wf(n as int));
                    if tree.nodes[o].end != tree.nodes[n].start {
                        self.report(source, tree.nodes[o].end, tree.nodes[n].start, "Expected no space after unary operator")
                    } else {
                        None
                    }
                },
                _ => None,
            }
        } else if pass == 2 && (tree.kind_is(i, "array_declarator") || tree.kind_is(i, "subscript_expression")) {
            let prev = if tree.kind_is(i, "array_declarator") {
                tree.child_by_field(i, "declarator")
            } else {
                tree.child_by_field(i, "argument")
            };
            match (prev, self.child_of_kind(source, i, "[")) {
                (Some(p), Some(b)) => {
                    assert(tree.node_wf(p as int));
                    assert(tree.node_wf(b as int));
                    if tree.nodes[p].end != tree.nodes[b].start {
                        self.report(source, tree.nodes[p].end, tree.nodes[b].start, "Expected no space before array subscript")
                    } else {
                        None
                    }
                },
                _ => None,
            }
        } else if pass == 3 && tree.kind_is(i, "field_expression") {
            match (tree.child_by_field(i, "argument"), tree.child_by_field(i, "operator"), tree.child_by_field(i, "field")) {
                (Some(l), Some(o), Some(r)) => self.check_field_op_spacing(source, o, l, r),
                _ => None,
            }
        } else {
            None
        }
    }

    /// What `check` returns on `source`.
    pub open spec fn checked(&self, source: SourceInfo, r: Seq<Diagnostic>) -> bool {
        &&& r.len() == operator_findings(source.text(), source.tree, 3, source.tree.nodes.len() as int).len()
        &&& forall|k: int| 0 <= k < r.len() ==> reports_operator(#[trigger] r[k], source.text(), source.tree,
            operator_findings(source.text(), source.tree, 3, source.tree.nodes.len() as int)[k])
    }

    /// Checks binary operators (one space on each side on the operator's row), unary
    /// and pointer operators (no space before the operand), array subscripts (no space
    /// before `[`) and field accesses (no space around `.` or `->`): the nodes of each
    /// kind in document order, one kind after the other.
    pub fn check(&self, source: &SourceInfo) -> (r: Vec<Diagnostic>)
        requires
            source.wf(),
        ensures
            self.checked(*source, r@),
            r.len() == operator_findings(source.text(), source.tree, 3, source.tree.nodes.len() as int).len(),
            forall|k: int| 0 <= k < r.len() ==> reports_operator(#[trigger] r[k], source.text(), source.tree,
                operator_findings(source.text(), source.tree, 3, source.tree.nodes.len() as int)[k]),
    {
        let tree = &source.tree;
        let ghost s = source.text();
        let mut diags: Vec<Diagnostic> = Vec::new();
        let mut pass: usize = 0;
        assert(operator_findings(s, *tree, 0, 0) =~= Seq::<(int, int)>::empty());
        while pass < 4
            invariant
                source.wf(),
                tree == &source.tree,
                s == source.text(),
                pass <= 4,
                pass < 4 ==> diags.len() == operator_findings(s, *tree, pass as int, 0).len(),
                pass < 4 ==> forall|k: int| 0 <= k < diags.len() ==> reports_operator(#[trigger] diags[k], s, *tree,
                    operator_findings(s, *tree, pass as int, 0)[k]),
                pass == 4 ==> diags.len() == operator_findings(s, *tree, 3, tree.nodes.len() as int).len(),
                pass == 4 ==> forall|k: int| 0 <= k < diags.len() ==> reports_operator(#[trigger] diags[k], s, *tree,
                    operator_findings(s, *tree, 3, tree.nodes.len() as int)[k]),
            decreases 4 - pass,
        {
            let mut i: usize = 0;
            while i < tree.nodes.len()
                invariant
                    source.wf(),
                    tree == &source.tree,
                    s == source.text(),
                    pass < 4,
                    i <= tree.nodes.len(),
                    diags.len() == operator_findings(s, *tree, pass as int, i as int).len(),
                    forall|k: int| 0 <= k < diags.len() ==> reports_operator(#[trigger] diags[k], s, *tree,
                        operator_findings(s, *tree, pass as int, i as int)[k]),
                decreases tree.nodes.len() - i,
            {
                let ghost before = diags@;
                let ghost fb = operator_findings(s, *tree, pass as int, i as int);
                match self.check_node(source, i, pass) {
                    Some(d) => {
                        diags.push(d);
                    },
                    None => {},
                }
                proof {
                    let fa = operator_findings(s, *tree, pass as int, i + 1);
                    assert forall|k: int| 0 <= k < diags.len() implies reports_operator(#[trigger] diags[k], s, *tree, fa[k]) by {
                        if k < before.len() {
                            assert(diags[k] == before[k]);
                            assert(fa[k] == fb[k]);
                        }
                    }
                }
                i = i + 1;
            }
            proof {
                if pass < 3 {
                    assert(operator_findings(s, *tree, pass + 1, 0) == operator_findings(s, *tree, pass as int, tree.nodes.len() as int));
                }
            }
            pass = pass + 1;
        }
        diags
    }
}

} // verus!
