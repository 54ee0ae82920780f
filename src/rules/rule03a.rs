//! Rule III:A: one space between a flow-control keyword and its parenthesis, and
//! between the closing parenthesis and the opening brace.

use vstd::prelude::*;
use crate::diagnostic::{Diagnostic, RuleDescription, SourceRange, Span};
use crate::lines::char_index_at;
use crate::source::{push_str, SourceInfo};
use crate::syntax::SyntaxTree;
use crate::rules::rule12a::node_text_spec;
use crate::rules::rule3b::first_of_kind;
use crate::text::byte_offset;

verus! {

/// Whether exactly one ASCII space lies between byte `a` (the end of one node) and byte
/// `b` (the start of the next).
pub open spec fn is_single_space(s: Seq<char>, a: int, b: int) -> bool {
    let ci = char_index_at(s, a);
    b == a + 1 && byte_offset(s, ci) == a && ci < s.len() && s[ci] == ' '
}

/// Whether exactly one ASCII space lies between byte `a` and byte `b`.
pub fn single_space_between(source: &SourceInfo, a: usize, b: usize) -> (r: bool)
    requires
        source.wf(),
    ensures
        r == is_single_space(source.text(), a as int, b as int),
{
    if b > a && b - a == 1 {
        let ci = source.char_index(a);
        source.index.offsets[ci] == a && ci < source.index.chars.len() && source.index.chars[ci] == ' '
    } else {
        false
    }
}

/// The first child of node `i`, if it has kind `k`.
pub open spec fn first_child_of_kind_spec(t: SyntaxTree, i: int, k: Seq<char>) -> Option<int> {
    match t.first_child_spec(i) {
        Some(c) => if t.kind_is_spec(c, k) { Some(c) } else { None },
        None => None,
    }
}

/// The last child of node `i`.
pub open spec fn last_child_spec(t: SyntaxTree, i: int) -> Option<int> {
    if t.children_spec(i).len() > 0 { Some(t.children_spec(i).last()) } else { None }
}

/// The keyword, parentheses and brace of a flow-control statement `i` whose condition
/// is parenthesized and whose body is a block.
pub open spec fn flow_parts(t: SyntaxTree, i: int, keyword: Seq<char>, cond: Seq<char>, body: Seq<char>) -> Option<(int, int, int, int)> {
    match (first_of_kind(t, t.children_spec(i), keyword), t.child_by_field_spec(i, cond), t.child_by_field_spec(i, body)) {
        (Some(kw), Some(c), Some(b)) => if t.kind_is_spec(c, "parenthesized_expression"@) && t.kind_is_spec(b, "compound_statement"@) {
            match (first_child_of_kind_spec(t, c, "("@), last_child_spec(t, c), first_child_of_kind_spec(t, b, "{"@)) {
                (Some(o), Some(cl), Some(br)) => if t.kind_is_spec(cl, ")"@) { Some((kw, o, cl, br)) } else { None },
                _ => None,
            }
        } else {
            None
        },
        _ => None,
    }
}

/// The pairs that a statement with keyword `kw`, parentheses `o`..`c` and brace `b`
/// checks: the closing parenthesis and the brace, then the keyword and the parenthesis.
pub open spec fn block_pairs(parts: Option<(int, int, int, int)>) -> Seq<(int, int, bool)> {
    match parts {
        Some((kw, o, c, b)) => seq![(c, b, true), (kw, o, false)],
        None => Seq::empty(),
    }
}

/// The pairs of a `for` statement whose body is a block.
pub open spec fn for_pairs(t: SyntaxTree, i: int) -> Seq<(int, int, bool)> {
    let kids = t.children_spec(i);
    if kids.len() < 2 {
        Seq::empty()
    } else {
        let (kw, open, body) = (kids[0], kids[1], kids.last());
        if t.kind_is_spec(kw, "for"@) && t.kind_is_spec(open, "("@) && t.field_is_spec(body, "body"@)
            && t.kind_is_spec(body, "compound_statement"@) {
            match (first_of_kind(t, kids.skip(2), ")"@), first_child_of_kind_spec(t, body, "{"@)) {
                (Some(c), Some(b)) => seq![(c, b, true), (kw, open, false)],
                _ => Seq::empty(),
            }
        } else {
            Seq::empty()
        }
    }
}

/// The pair, if any, of the `while` at position `k` of the children `kids` of a
/// `do` statement.
pub open spec fn while_pair_at(t: SyntaxTree, kids: Seq<int>, k: int) -> Seq<(int, int, bool)> {
    if 0 < k && k + 1 < kids.len() && t.kind_is_spec(kids[k], "while"@) && t.field_is_spec(kids[k + 1], "condition"@)
        && t.kind_is_spec(kids[k + 1], "parenthesized_expression"@) && t.field_is_spec(kids[k - 1], "body"@) {
        match first_child_of_kind_spec(t, kids[k + 1], "("@) {
            Some(o) => seq![(kids[k], o, false)],
            None => Seq::empty(),
        }
    } else {
        Seq::empty()
    }
}

/// The pairs of the `while`s at positions before `n`.
pub open spec fn while_pairs(t: SyntaxTree, kids: Seq<int>, n: int) -> Seq<(int, int, bool)>
    decreases n,
{
    if n <= 0 {
        Seq::empty()
    } else {
        while_pairs(t, kids, n - 1) + while_pair_at(t, kids, n - 1)
    }
}

/// The pairs of a `do` statement: `do` and its brace, then `while` and its parenthesis.
pub open spec fn do_pairs(t: SyntaxTree, i: int) -> Seq<(int, int, bool)> {
    let head = match (first_child_of_kind_spec(t, i, "do"@), t.child_by_field_spec(i, "body"@)) {
        (Some(k), Some(b)) => if t.kind_is_spec(b, "compound_statement"@) {
            match first_child_of_kind_spec(t, b, "{"@) {
                Some(br) => seq![(k, br, false)],
                None => Seq::empty(),
            }
        } else {
            Seq::empty()
        },
        _ => Seq::empty(),
    };
    let kids = t.children_spec(i);
    head + while_pairs(t, kids, if kids.len() > 0 { kids.len() - 1 } else { 0 })
}

/// The pairs that node `i` checks, in order.
pub open spec fn flow_pairs(t: SyntaxTree, i: int) -> Seq<(int, int, bool)> {
    let block = if t.kind_is_spec(i, "if_statement"@) {
        block_pairs(flow_parts(t, i, "if"@, "condition"@, "consequence"@))
    } else if t.kind_is_spec(i, "while_statement"@) {
        block_pairs(flow_parts(t, i, "while"@, "condition"@, "body"@))
    } else if t.kind_is_spec(i, "switch_statement"@) {
        block_pairs(flow_parts(t, i, "switch"@, "condition"@, "body"@))
    } else {
        Seq::empty()
    };
    block + (if t.kind_is_spec(i, "for_statement"@) { for_pairs(t, i) } else { Seq::empty() })
        + (if t.kind_is_spec(i, "do_statement"@) { do_pairs(t, i) } else { Seq::empty() })
}

/// Whether the pair `(l, r)` is not separated by exactly one space.
pub open spec fn badly_spaced_pair(s: Seq<char>, t: SyntaxTree, l: int, r: int) -> bool {
    !(is_single_space(s, t.nodes[l].end as int, t.nodes[r].start as int) || t.nodes[l].start > t.nodes[r].end)
}

/// The badly spaced pairs of `pairs`, in order.
pub open spec fn bad_pairs(s: Seq<char>, t: SyntaxTree, pairs: Seq<(int, int, bool)>) -> Seq<(int, int, bool)>
    decreases pairs.len(),
{
    if pairs.len() == 0 {
        Seq::empty()
    } else if badly_spaced_pair(s, t, pairs.last().0, pairs.last().1) {
        bad_pairs(s, t, pairs.drop_last()).push(pairs.last())
    } else {
        bad_pairs(s, t, pairs.drop_last())
    }
}

/// The badly spaced pairs of the nodes before `n`, in order.
pub open spec fn flow_findings(s: Seq<char>, t: SyntaxTree, n: int) -> Seq<(int, int, bool)>
    decreases n,
{
    if n <= 0 {
        Seq::empty()
    } else {
        flow_findings(s, t, n - 1) + bad_pairs(s, t, flow_pairs(t, n - 1))
    }
}

/// Whether `d` reports pair `p`: over its left node through its right one.
pub open spec fn reports_pair(d: Diagnostic, s: Seq<char>, t: SyntaxTree, p: (int, int, bool)) -> bool {
    &&& d.plain()
    &&& d.rule == Rule03a::description()
    &&& d.ranges_consistent_with(s)
    &&& d.violations.len() == 1
    &&& d.violations[0].range.bytes.start == t.nodes[p.0].start
    &&& d.violations[0].range.bytes.end == t.nodes[p.1].end
    &&& d.message@ == if p.2 {
        "Expected a single space between the closing parenthesis and the opening brace"@
    } else {
        "Expected a single space after `"@ + node_text_spec(s, t, p.0) + "'"@
    }
}

/// Whether `after` is `before` followed by a report of each pair of `pairs`.
pub open spec fn appends_reports(after: Seq<Diagnostic>, before: Seq<Diagnostic>, s: Seq<char>, t: SyntaxTree, pairs: Seq<(int, int, bool)>) -> bool {
    &&& after.len() == before.len() + pairs.len()
    &&& forall|k: int| 0 <= k < before.len() ==> after[k] == before[k]
    &&& forall|k: int| 0 <= k < pairs.len() ==> reports_pair(#[trigger] after[before.len() + k], s, t, pairs[k])
}

/// Selecting the badly spaced pairs distributes over concatenation.
pub proof fn lemma_bad_pairs_append(s: Seq<char>, t: SyntaxTree, a: Seq<(int, int, bool)>, b: Seq<(int, int, bool)>)
    ensures
        bad_pairs(s, t, a + b) == bad_pairs(s, t, a) + bad_pairs(s, t, b),
    decreases b.len(),
{
    if b.len() == 0 {
        assert(a + b =~= a);
        assert(bad_pairs(s, t, a) + bad_pairs(s, t, b) =~= bad_pairs(s, t, a));
    } else {
        assert((a + b).drop_last() =~= a + b.drop_last());
        assert((a + b).last() == b.last());
        lemma_bad_pairs_append(s, t, a, b.drop_last());
        if badly_spaced_pair(s, t, b.last().0, b.last().1) {
            assert(bad_pairs(s, t, a) + bad_pairs(s, t, b) =~= (bad_pairs(s, t, a) + bad_pairs(s, t, b.drop_last())).push(b.last()));
        }
    }
}

/// The last child of node `i`.
fn last_child(tree: &SyntaxTree, i: usize) -> (r: Option<usize>)
    requires
        tree.wf(),
        i < tree.nodes.len(),
    ensures
        r matches Some(c) ==> c < tree.nodes.len(),
        r is Some <==> last_child_spec(*tree, i as int) is Some,
        r matches Some(c) ==> last_child_spec(*tree, i as int) == Some(c as int),
{
    let kids = tree.children(i);
    if kids.len() == 0 {
        None
    } else {
        Some(kids[kids.len() - 1])
    }
}

/// The first child of node `i` if it has kind `k`.
fn first_child_of_kind(tree: &SyntaxTree, i: usize, k: &str) -> (r: Option<usize>)
    requires
        tree.wf(),
        i < tree.nodes.len(),
    ensures
        r matches Some(c) ==> c < tree.nodes.len(),
        r is Some <==> first_child_of_kind_spec(*tree, i as int, k@) is Some,
        r matches Some(c) ==> first_child_of_kind_spec(*tree, i as int, k@) == Some(c as int),
{
    match tree.first_child(i) {
        Some(c) => {
            if tree.kind_is(c, k) {
                Some(c)
            } else {
                None
            }
        },
        None => None,
    }
}

/// The first of `kids[from..]` of kind `k`.
fn first_of_kind_from(tree: &SyntaxTree, kids: &Vec<usize>, from: usize, k: &str) -> (r: Option<usize>)
    requires
        tree.wf(),
        from <= kids.len(),
        forall|m: int| 0 <= m < kids.len() ==> #[trigger] kids[m] < tree.nodes.len(),
    ensures
        r matches Some(c) ==> c < tree.nodes.len(),
        r is Some <==> first_of_kind(*tree, kids@.map_values(|x: usize| x as int).skip(from as int), k@) is Some,
        r matches Some(c) ==> first_of_kind(*tree, kids@.map_values(|x: usize| x as int).skip(from as int), k@) == Some(c as int),
{
    let ghost ks = kids@.map_values(|x: usize| x as int);
    let mut m: usize = from;
    while m < kids.len()
        invariant
            tree.wf(),
            from <= m <= kids.len(),
            ks == kids@.map_values(|x: usize| x as int),
            forall|j: int| 0 <= j < kids.len() ==> #[trigger] kids[j] < tree.nodes.len(),
            first_of_kind(*tree, ks.skip(from as int), k@) == first_of_kind(*tree, ks.skip(m as int), k@),
        decreases kids.len() - m,
    {
        assert(ks.skip(m as int)[0] == kids[m as int] as int);
        if tree.kind_is(kids[m], k) {
            return Some(kids[m]);
        }
        assert(ks.skip(m as int).drop_first() =~= ks.skip(m + 1));
        m = m + 1;
    }
    assert(ks.skip(m as int) =~= Seq::<int>::empty());
    None
}

/// Rule III:A.
pub struct Rule03a {}

impl Rule03a {
    /// The rule's description.
    pub open spec fn description() -> RuleDescription {
        RuleDescription {
            group_number: 3,
            letter: 'A',
            code: "III:A",
            name: "FlowControlSpacing",
            description: "one space must be placed between flow control constructs",
        }
    }

    /// Returns the rule's description.
    pub fn describe(&self) -> (r: RuleDescription)
        ensures
            r == Self::description(),
    {
        RuleDescription {
            group_number: 3,
            letter: 'A',
            code: "III:A",
            name: "FlowControlSpacing",
            description: "one space must be placed between flow control constructs",
        }
    }

    /// A diagnostic over `left` through `right` unless exactly one space separates them.
    pub fn check_single_space_between(&self, source: &SourceInfo, left: usize, right: usize, message: String) -> (r: Option<Diagnostic>)
        requires
            source.wf(),
            left < source.tree.nodes.len(),
            right < source.tree.nodes.len(),
        ensures
            r is Some <==> badly_spaced_pair(source.text(), source.tree, left as int, right as int),
            r matches Some(d) ==> d.rule == Self::description() && d.ranges_consistent_with(source.text())
                && d.violations.len() == 1
                && d.violations[0].range.bytes.start == source.tree.nodes[left as int].start
                && d.violations[0].range.bytes.end == source.tree.nodes[right as int].end
                && d.message == message && d.plain(),
    {
        let tree = &source.tree;
        assert(tree.node_wf(left as int));
        assert(tree.node_wf(right as int));
        if single_space_between(source, tree.nodes[left].end, tree.nodes[right].start) {
            return None;
        }
        if tree.nodes[left].start > tree.nodes[right].end {
            return None;
        }
        let range = SourceRange::from_byte_range(tree.nodes[left].start..tree.nodes[right].end, source);
        Some(Diagnostic::new(self.describe(), message).with_violation(Span::new(source.filename.as_str(), range, String::new())))
    }

    /// Appends the report of pair `(left, right)` to `diags` if it is badly spaced.
    fn check_pair(&self, source: &SourceInfo, left: usize, right: usize, brace: bool, diags: &mut Vec<Diagnostic>)
        requires
            source.wf(),
            left < source.tree.nodes.len(),
            right < source.tree.nodes.len(),
        ensures
            appends_reports(final(diags)@, old(diags)@, source.text(), source.tree,
                bad_pairs(source.text(), source.tree, seq![(left as int, right as int, brace)])),
    {
        let ghost p = (left as int, right as int, brace);
        assert(seq![p].drop_last() =~= Seq::<(int, int, bool)>::empty());
        assert(seq![p].last() == p);
        assert(seq![p].len() == 1);
        assert(bad_pairs(source.text(), source.tree, Seq::<(int, int, bool)>::empty()) == Seq::<(int, int, bool)>::empty());
        let message = if brace {
            "Expected a single space between the closing parenthesis and the opening brace".to_owned()
        } else {
            let mut m = "Expected a single space after `".to_owned();
            let text = source.node_text(left);
            push_str(&mut m, text.as_str());
            push_str(&mut m, "'");
            m
        };
        let ghost start = diags@;
        match self.check_single_space_between(source, left, right, message) {
            Some(d) => {
                diags.push(d);
                assert(bad_pairs(source.text(), source.tree, seq![p]) =~= seq![p]);
                assert(diags@[start.len() as int] == d);
            },
            None => {
                assert(bad_pairs(source.text(), source.tree, seq![p]) =~= Seq::<(int, int, bool)>::empty());
            },
        }
    }

    /// Appends the reports of the badly spaced pairs of `pairs` to `diags`.
    fn check_pairs(&self, source: &SourceInfo, pairs: &Vec<(usize, usize, bool)>, diags: &mut Vec<Diagnostic>)
        requires
            source.wf(),
            forall|k: int| 0 <= k < pairs.len() ==> (#[trigger] pairs[k]).0 < source.tree.nodes.len()
                && pairs[k].1 < source.tree.nodes.len(),
        ensures
            appends_reports(final(diags)@, old(diags)@, source.text(), source.tree,
                bad_pairs(source.text(), source.tree, pairs@.map_values(|p: (usize, usize, bool)| (p.0 as int, p.1 as int, p.2)))),
    {
        let ghost s = source.text();
        let ghost t = source.tree;
        let ghost ps = pairs@.map_values(|p: (usize, usize, bool)| (p.0 as int, p.1 as int, p.2));
        let ghost start = diags@;
        let mut k: usize = 0;
        assert(ps.take(0) =~= Seq::<(int, int, bool)>::empty());
        while k < pairs.len()
            invariant
                source.wf(),
                s == source.text(),
                t == source.tree,
                k <= pairs.len(),
                ps == pairs@.map_values(|p: (usize, usize, bool)| (p.0 as int, p.1 as int, p.2)),
                forall|j: int| 0 <= j < pairs.len() ==> (#[trigger] pairs[j]).0 < t.nodes.len() && pairs[j].1 < t.nodes.len(),
                appends_reports(diags@, start, s, t, bad_pairs(s, t, ps.take(k as int))),
            decreases pairs.len() - k,
        {
            let ghost before = diags@;
            let (l, r, b) = pairs[k];
            self.check_pair(source, l, r, b, diags);
            proof {
                let prev = bad_pairs(s, t, ps.take(k as int));
                let one = bad_pairs(s, t, seq![(l as int, r as int, b)]);
                assert(ps.take(k + 1) =~= ps.take(k as int) + seq![(l as int, r as int, b)]);
                lemma_bad_pairs_append(s, t, ps.take(k as int), seq![(l as int, r as int, b)]);
                assert forall|j: int| 0 <= j < prev.len() + one.len() implies reports_pair(#[trigger] diags@[start.len() + j], s, t, (prev + one)[j]) by {
                    if j < prev.len() {
                        assert(diags@[start.len() + j] == before[start.len() + j]);
                    } else {
                        assert(diags@[start.len() + j] == diags@[before.len() + (j - prev.len())]);
                    }
                }
            }
            k = k + 1;
        }
        assert(ps.take(pairs.len() as int) =~= ps);
    }

    /// The keyword, parentheses and brace of a flow-control statement `i` whose
    /// condition is parenthesized and whose body is a block.
    fn parts(&self, tree: &SyntaxTree, i: usize, keyword: &str, cond: &str, body: &str) -> (r: Option<(usize, usize, usize, usize)>)
        requires
            tree.wf(),
            i < tree.nodes.len(),
        ensures
            r matches Some((k, o, c, b)) ==> k < tree.nodes.len() && o < tree.nodes.len()
                && c < tree.nodes.len() && b < tree.nodes.len(),
            r is Some <==> flow_parts(*tree, i as int, keyword@, cond@, body@) is Some,
            r matches Some((k, o, c, b)) ==> flow_parts(*tree, i as int, keyword@, cond@, body@)
                == Some((k as int, o as int, c as int, b as int)),
    {
        let kids = tree.children(i);
        let kw = first_of_kind_from(tree, &kids, 0, keyword);
        assert(kids@.map_values(|x: usize| x as int).skip(0) =~= tree.children_spec(i as int));
        let kw = match kw {
            Some(w) => w,
            None => {
                return None;
            },
        };
        let c = match tree.child_by_field(i, cond) {
            Some(c) => c,
            None => {
                return None;
            },
        };
        let b = match tree.child_by_field(i, body) {
            Some(b) => b,
            None => {
                return None;
            },
        };
        if !tree.kind_is(c, "parenthesized_expression") || !tree.kind_is(b, "compound_statement") {
            return None;
        }
        let open = first_child_of_kind(tree, c, "(");
        let close = last_child(tree, c);
        let brace = first_child_of_kind(tree, b, "{");
        match (open, close, brace) {
            (Some(o), Some(cl), Some(br)) => {
                if tree.kind_is(cl, ")") {
                    Some((kw, o, cl, br))
                } else {
                    None
                }
            },
            _ => None,
        }
    }

    /// The pairs that node `i` checks, in order.
    fn pairs_of(&self, tree: &SyntaxTree, i: usize) -> (r: Vec<(usize, usize, bool)>)
        requires
            tree.wf(),
            i < tree.nodes.len(),
        ensures
            r@.map_values(|p: (usize, usize, bool)| (p.0 as int, p.1 as int, p.2)) == flow_pairs(*tree, i as int),
            forall|k: int| 0 <= k < r.len() ==> (#[trigger] r[k]).0 < tree.nodes.len() && r[k].1 < tree.nodes.len(),
    {
        let mut out: Vec<(usize, usize, bool)> = Vec::new();
        let found = if tree.kind_is(i, "if_statement") {
            self.parts(tree, i, "if", "condition", "consequence")
        } else if tree.kind_is(i, "while_statement") {
            self.parts(tree, i, "while", "condition", "body")
        } else if tree.kind_is(i, "switch_statement") {
            self.parts(tree, i, "switch", "condition", "body")
        } else {
            None
        };
        match found {
            Some((kw, open, close, brace)) => {
                out.push((close, brace, true));
                out.push((kw, open, false));
            },
            None => {},
        }
        let ghost block = out@.map_values(|p: (usize, usize, bool)| (p.0 as int, p.1 as int, p.2));
        if tree.kind_is(i, "for_statement") {
            self.for_pairs_into(tree, i, &mut out);
        }
        let ghost with_for = out@.map_values(|p: (usize, usize, bool)| (p.0 as int, p.1 as int, p.2));
        if tree.kind_is(i, "do_statement") {
            self.do_pairs_into(tree, i, &mut out);
        }
        proof {
            let t = *tree;
            let b = if t.kind_is_spec(i as int, "if_statement"@) {
                block_pairs(flow_parts(t, i as int, "if"@, "condition"@, "consequence"@))
            } else if t.kind_is_spec(i as int, "while_statement"@) {
                block_pairs(flow_parts(t, i as int, "while"@, "condition"@, "body"@))
            } else if t.kind_is_spec(i as int, "switch_statement"@) {
                block_pairs(flow_parts(t, i as int, "switch"@, "condition"@, "body"@))
            } else {
                Seq::empty()
            };
            assert(block =~= b);
        }
        out
    }

    /// Appends the pairs of `for` statement `i` to `out`.
    fn for_pairs_into(&self, tree: &SyntaxTree, i: usize, out: &mut Vec<(usize, usize, bool)>)
        requires
            tree.wf(),
            i < tree.nodes.len(),
            forall|k: int| 0 <= k < old(out).len() ==> (#[trigger] old(out)[k]).0 < tree.nodes.len() && old(out)[k].1 < tree.nodes.len(),
        ensures
            final(out)@.map_values(|p: (usize, usize, bool)| (p.0 as int, p.1 as int, p.2))
                == old(out)@.map_values(|p: (usize, usize, bool)| (p.0 as int, p.1 as int, p.2)) + for_pairs(*tree, i as int),
            forall|k: int| 0 <= k < final(out).len() ==> (#[trigger] final(out)[k]).0 < tree.nodes.len() && final(out)[k].1 < tree.nodes.len(),
    {
        let ghost before = out@.map_values(|p: (usize, usize, bool)| (p.0 as int, p.1 as int, p.2));
        let kids = tree.children(i);
        let ghost ks = kids@.map_values(|x: usize| x as int);
        if kids.len() < 2 {
            assert(before + Seq::<(int, int, bool)>::empty() =~= before);
            return;
        }
        let kw = kids[0];
        let open = kids[1];
        let body = kids[kids.len() - 1];
        assert(ks.last() == body as int);
        if !tree.kind_is(kw, "for") || !tree.kind_is(open, "(") || !tree.field_is(body, "body")
            || !tree.kind_is(body, "compound_statement") {
            assert(before + Seq::<(int, int, bool)>::empty() =~= before);
            return;
        }
        let close = first_of_kind_from(tree, &kids, 2, ")");
        match (close, first_child_of_kind(tree, body, "{")) {
            (Some(c), Some(b)) => {
                out.push((c, b, true));
                out.push((kw, open, false));
                assert(out@.map_values(|p: (usize, usize, bool)| (p.0 as int, p.1 as int, p.2)) =~= before + seq![(c as int, b as int, true), (kw as int, open as int, false)]);
            },
            _ => {
                assert(before + Seq::<(int, int, bool)>::empty() =~= before);
            },
        }
    }

    /// Appends the pairs of `do` statement `i` to `out`.
    fn do_pairs_into(&self, tree: &SyntaxTree, i: usize, out: &mut Vec<(usize, usize, bool)>)
        requires
            tree.wf(),
            i < tree.nodes.len(),
            forall|k: int| 0 <= k < old(out).len() ==> (#[trigger] old(out)[k]).0 < tree.nodes.len() && old(out)[k].1 < tree.nodes.len(),
        ensures
            final(out)@.map_values(|p: (usize, usize, bool)| (p.0 as int, p.1 as int, p.2))
                == old(out)@.map_values(|p: (usize, usize, bool)| (p.0 as int, p.1 as int, p.2)) + do_pairs(*tree, i as int),
            forall|k: int| 0 <= k < final(out).len() ==> (#[trigger] final(out)[k]).0 < tree.nodes.len() && final(out)[k].1 < tree.nodes.len(),
    {
        let ghost before = out@.map_values(|p: (usize, usize, bool)| (p.0 as int, p.1 as int, p.2));
        let kw = first_child_of_kind(tree, i, "do");
        let body = tree.child_by_field(i, "body");
        match (kw, body) {
            (Some(k), Some(b)) => {
                if tree.kind_is(b, "compound_statement") {
                    match first_child_of_kind(tree, b, "{") {
                        Some(brace) => out.push((k, brace, false)),
                        None => {},
                    }
                }
            },
            _ => {},
        }
        let ghost head = out@.map_values(|p: (usize, usize, bool)| (p.0 as int, p.1 as int, p.2));
        let kids = tree.children(i);
        let ghost ks = kids@.map_values(|x: usize| x as int);
        let mut k: usize = 0;
        assert(head + while_pairs(*tree, ks, 0) =~= head);
        while k < kids.len() && k + 1 < kids.len()
            invariant
                tree.wf(),
                k <= kids.len(),
                ks == kids@.map_values(|x: usize| x as int),
                ks == tree.children_spec(i as int),
                forall|m: int| 0 <= m < kids.len() ==> #[trigger] kids[m] < tree.nodes.len(),
                forall|m: int| 0 <= m < out.len() ==> (#[trigger] out[m]).0 < tree.nodes.len() && out[m].1 < tree.nodes.len(),
                out@.map_values(|p: (usize, usize, bool)| (p.0 as int, p.1 as int, p.2)) == head + while_pairs(*tree, ks, k as int),
                k + 1 >= kids.len() ==> k == (if kids.len() > 0 { kids.len() - 1 } else { 0 }),
            decreases kids.len() - k,
        {
            let ghost pre = out@.map_values(|p: (usize, usize, bool)| (p.0 as int, p.1 as int, p.2));
            let w = kids[k];
            let c = kids[k + 1];
            let mut added = false;
            if k > 0 && tree.kind_is(w, "while") && tree.field_is(c, "condition")
                && tree.kind_is(c, "parenthesized_expression") && tree.field_is(kids[k - 1], "body") {
                match first_child_of_kind(tree, c, "(") {
                    Some(open) => {
                        out.push((w, open, false));
                        added = true;
                        assert(out@.map_values(|p: (usize, usize, bool)| (p.0 as int, p.1 as int, p.2)) =~= pre.push((w as int, open as int, false)));
                    },
                    None => {},
                }
            }
            proof {
                assert(while_pairs(*tree, ks, k + 1) == while_pairs(*tree, ks, k as int) + while_pair_at(*tree, ks, k as int));
                if added {
                    assert(out@.map_values(|p: (usize, usize, bool)| (p.0 as int, p.1 as int, p.2)) =~= head + while_pairs(*tree, ks, k + 1));
                } else {
                    assert(while_pair_at(*tree, ks, k as int) =~= Seq::<(int, int, bool)>::empty());
                    assert(out@.map_values(|p: (usize, usize, bool)| (p.0 as int, p.1 as int, p.2)) =~= head + while_pairs(*tree, ks, k + 1));
                }
            }
            k = k + 1;
        }
        proof {
            let t = *tree;
            let h = match (first_child_of_kind_spec(t, i as int, "do"@), t.child_by_field_spec(i as int, "body"@)) {
                (Some(kk), Some(b)) => if t.kind_is_spec(b, "compound_statement"@) {
                    match first_child_of_kind_spec(t, b, "{"@) {
                        Some(br) => seq![(kk, br, false)],
                        None => Seq::empty(),
                    }
                } else {
                    Seq::empty()
                },
                _ => Seq::empty(),
            };
            assert(head =~= before + h);
            assert(before + h + while_pairs(t, ks, k as int) =~= before + do_pairs(t, i as int));
        }
    }

    /// What `check` returns on `source`.
    pub open spec fn checked(&self, source: SourceInfo, r: Seq<Diagnostic>) -> bool {
        &&& appends_reports(r, Seq::empty(), source.text(), source.tree,
            flow_findings(source.text(), source.tree, source.tree.nodes.len() as int))
        &&& forall|k: int| 0 <= k < r.len() ==> (#[trigger] r[k]).rule == Self::description()
            && r[k].ranges_consistent_with(source.text())
    }

    /// Checks the spacing of `if`, `while`, `switch`, `for` and `do`-`while`
    /// statements: for each, in document order, the gap between the closing parenthesis
    /// and the brace, then the gap between the keyword and its parenthesis.
    pub fn check(&self, source: &SourceInfo) -> (r: Vec<Diagnostic>)
        requires
            source.wf(),
        ensures
            self.checked(*source, r@),
            appends_reports(r@, Seq::empty(), source.text(), source.tree,
                flow_findings(source.text(), source.tree, source.tree.nodes.len() as int)),
            forall|k: int| 0 <= k < r.len() ==> (#[trigger] r[k]).rule == Self::description()
                && r[k].ranges_consistent_with(source.text()),
    {
        let tree = &source.tree;
        let ghost s = source.text();
        let mut diags: Vec<Diagnostic> = Vec::new();
        let mut i: usize = 0;
        while i < tree.nodes.len()
            invariant
                source.wf(),
                tree == &source.tree,
                s == source.text(),
                i <= tree.nodes.len(),
                appends_reports(diags@, Seq::empty(), s, *tree, flow_findings(s, *tree, i as int)),
            decreases tree.nodes.len() - i,
        {
            let ghost before = diags@;
            let pairs = self.pairs_of(tree, i);
            self.check_pairs(source, &pairs, &mut diags);
            proof {
                let prev = flow_findings(s, *tree, i as int);
                let add = bad_pairs(s, *tree, flow_pairs(*tree, i as int));
                assert(flow_findings(s, *tree, i + 1) == prev + add);
                assert forall|k: int| 0 <= k < prev.len() + add.len() implies reports_pair(#[trigger] diags@[0 + k], s, *tree, (prev + add)[k]) by {
                    if k < prev.len() {
                        assert(diags@[k] == before[k]);
                        assert(before[0 + k] == before[k]);
                    } else {
                        assert(diags@[k] == diags@[before.len() + (k - prev.len())]);
                    }
                }
            }
            i = i + 1;
        }
        proof {
            let f = flow_findings(s, *tree, tree.nodes.len() as int);
            assert forall|k: int| 0 <= k < diags.len() implies (#[trigger] diags[k]).rule == Self::description()
                && diags[k].ranges_consistent_with(s) by {
                assert(reports_pair(diags@[0 + k], s, *tree, f[k]));
            }
        }
        diags
    }
}

} // verus!
