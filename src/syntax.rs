//! The syntax tree of a source text, held as plain values: one record per node, in
//! document (pre-)order, with parent and sibling links.

use vstd::prelude::*;
use vstd::string::StringSliceAdditionalSpecFns;
use crate::text::str_eq;

verus! {

/// One node as the parser reports it: kind, whether named, the field its parent holds
/// it under, byte range, depth below the root, and whether it is an error or missing.
pub struct RawNode {
    pub kind: String,
    pub named: bool,
    pub field: Option<String>,
    pub start: usize,
    pub end: usize,
    pub depth: usize,
    pub error: bool,
    pub missing: bool,
}

/// A node record as plain values.
pub type RawView = (Seq<char>, bool, Option<Seq<char>>, usize, usize, usize, bool, bool);

/// The plain values of record `n`.
pub open spec fn raw_view(n: RawNode) -> RawView {
    (n.kind@, n.named, match n.field { Some(f) => Some(f@), None => None }, n.start, n.end, n.depth, n.error, n.missing)
}

/// The node records, in document pre-order, of the tree that the C grammar gives for
/// `code`, or `None` where the parser gives no tree.
pub uninterp spec fn c_syntax_of(code: Seq<char>) -> Option<Seq<RawView>>;

/// Relies on `tree_sitter::Parser` (`new`, `set_language` with `tree_sitter_c::LANGUAGE`,
/// `parse`) and on `TreeCursor::goto_descendant`, which visits the nodes in pre-order:
/// the records of the tree of `code`, which depend on the code alone.
#[verifier::external_body]
fn parse_c(code: &str) -> (r: Option<Vec<RawNode>>)
    ensures
        r is None ==> c_syntax_of(code@) is None,
        r matches Some(v) ==> c_syntax_of(code@) == Some(v@.map_values(|n: RawNode| raw_view(n))),
{
    let mut parser = tree_sitter::Parser::new();
    parser.set_language(&tree_sitter_c::LANGUAGE.into()).ok()?;
    let tree = parser.parse(code, None)?;
    let mut c = tree.walk();
    let mut out = Vec::new();
    for k in 0..tree.root_node().descendant_count() {
        c.goto_descendant(k);
        let n = c.node();
        out.push(RawNode { kind: n.kind().to_owned(), named: n.is_named(), field: c.field_name().map(str::to_owned),
            start: n.start_byte(), end: n.end_byte(), depth: c.depth() as usize, error: n.is_error(), missing: n.is_missing() });
    }
    Some(out)
}

/// The last record before `n` at depth `d`.
pub open spec fn last_at_depth(v: Seq<RawView>, n: int, d: int) -> Option<int>
    decreases n,
{
    if n <= 0 {
        None
    } else if v[n - 1].5 == d {
        Some(n - 1)
    } else {
        last_at_depth(v, n - 1, d)
    }
}

/// The parent of record `i`: the last record before it one level up.
pub open spec fn parent_of(v: Seq<RawView>, i: int) -> Option<int> {
    if v[i].5 == 0 {
        None
    } else {
        last_at_depth(v, i, v[i].5 - 1)
    }
}

/// The first record `j` with `i < j < n` that has the parent of record `i`.
pub open spec fn next_of(v: Seq<RawView>, i: int, n: int) -> Option<int>
    decreases n - i,
{
    if n <= i + 1 {
        None
    } else {
        match next_of(v, i, n - 1) {
            Some(j) => Some(j),
            None => if parent_of(v, n - 1) == parent_of(v, i) { Some(n - 1) } else { None },
        }
    }
}

/// The last record before `n` whose parent is `q`.
pub open spec fn last_child_before(v: Seq<RawView>, n: int, q: Option<int>) -> Option<int>
    decreases n,
{
    if n <= 0 {
        None
    } else if parent_of(v, n - 1) == q {
        Some(n - 1)
    } else {
        last_child_before(v, n - 1, q)
    }
}

/// `o` as an optional integer.
pub open spec fn opt_int(o: Option<usize>) -> Option<int> {
    match o {
        Some(x) => Some(x as int),
        None => None,
    }
}

/// Whether tree `t` holds the records `v`: node for node the same kind, name flag,
/// field, parent, next sibling and error flag, and the same byte range wherever the
/// record's range is not reversed and lies within the text.
pub open spec fn holds_records(t: SyntaxTree, v: Seq<RawView>) -> bool {
    &&& t.nodes.len() == v.len()
    &&& forall|i: int| 0 <= i < v.len() ==> {
        let n = #[trigger] t.nodes[i];
        let rec = v[i];
        &&& n.kind@ == rec.0
        &&& n.named == rec.1
        &&& (match n.field { Some(f) => Some(f@), None => None }) == rec.2
        &&& (rec.3 <= rec.4 <= t.text_len ==> n.start == rec.3 && n.end == rec.4)
        &&& n.error == (rec.6 || rec.7)
        &&& opt_int(n.parent) == parent_of(v, i)
        &&& opt_int(t.next_sibling[i]) == next_of(v, i, v.len() as int)
    }
}

/// Where record `k` has parent `q`, its next sibling among the records before `n` is
/// missing exactly when it is the last record before `n` with that parent.
pub proof fn lemma_last_child(v: Seq<RawView>, n: int, k: int)
    requires
        0 <= k < n <= v.len(),
    ensures
        next_of(v, k, n) is None <==> last_child_before(v, n, parent_of(v, k)) == Some(k),
    decreases n,
{
    if n == k + 1 {
        assert(last_child_before(v, n, parent_of(v, k)) == Some(k));
    } else {
        lemma_last_child(v, n - 1, k);
        lemma_last_child_bound(v, n - 1, parent_of(v, k));
    }
}

/// The last record before `n` with a given parent comes before `n`.
pub proof fn lemma_last_child_bound(v: Seq<RawView>, n: int, q: Option<int>)
    ensures
        last_child_before(v, n, q) matches Some(j) ==> 0 <= j < n && parent_of(v, j) == q,
    decreases n,
{
    if n > 0 && parent_of(v, n - 1) != q {
        lemma_last_child_bound(v, n - 1, q);
    }
}

/// The last record before `n` at a depth comes before `n` and has that depth.
pub proof fn lemma_last_at_depth_bound(v: Seq<RawView>, n: int, d: int)
    ensures
        last_at_depth(v, n, d) matches Some(j) ==> 0 <= j < n && v[j].5 == d,
    decreases n,
{
    if n > 0 && v[n - 1].5 != d {
        lemma_last_at_depth_bound(v, n - 1, d);
    }
}

/// A next sibling lies between the record and `n`, and has the same parent.
pub proof fn lemma_next_of_bound(v: Seq<RawView>, i: int, n: int)
    ensures
        next_of(v, i, n) matches Some(j) ==> i < j < n && parent_of(v, j) == parent_of(v, i),
    decreases n - i,
{
    if n > i + 1 {
        lemma_next_of_bound(v, i, n - 1);
    }
}

/// One node of a syntax tree.
pub struct SyntaxNode {
    /// The node's kind (`"identifier"`, `"if_statement"`, `";"`, ...).
    pub kind: String,
    /// Whether the node stands for a named rule of the grammar (not a literal token).
    pub named: bool,
    /// Name of the field under which the node's parent holds it.
    pub field: Option<String>,
    /// First byte of the node.
    pub start: usize,
    /// One past the last byte of the node.
    pub end: usize,
    /// Index of the parent node.
    pub parent: Option<usize>,
    /// Whether the parser produced this node as a syntax error or inserted it as missing.
    pub error: bool,
}

/// Node `i` lies within the text, comes after its parent and before its next sibling,
/// which has the same parent.
pub open spec fn node_wf(nodes: Seq<SyntaxNode>, next: Seq<Option<usize>>, text_len: usize, i: int) -> bool {
    let n = nodes[i];
    &&& n.start <= n.end <= text_len
    &&& (n.parent matches Some(p) ==> p < i)
    &&& (next[i] matches Some(j) ==> i < j < nodes.len() && nodes[j as int].parent == n.parent)
}

/// A syntax tree: its nodes in document pre-order (the root first), and for each node
/// the index of its next sibling.
pub struct SyntaxTree {
    pub nodes: Vec<SyntaxNode>,
    pub next_sibling: Vec<Option<usize>>,
    /// Length in bytes of the text that the tree covers.
    pub text_len: usize,
}

impl SyntaxTree {
    /// Parents come before their children, siblings follow each other, and every
    /// node's byte range lies within the text.
    pub open spec fn wf(&self) -> bool {
        &&& self.next_sibling.len() == self.nodes.len()
        &&& forall|i: int| 0 <= i < self.nodes.len() ==> self.node_wf(i)
    }

    pub open spec fn node_wf(&self, i: int) -> bool {
        node_wf(self.nodes@, self.next_sibling@, self.text_len, i)
    }

    /// Whether node `i` is of kind `k`.
    pub open spec fn kind_is_spec(&self, i: int, k: Seq<char>) -> bool {
        self.nodes[i].kind@ == k
    }

    /// Whether the parser reported a syntax error or a missing node anywhere in the tree.
    pub open spec fn has_error_spec(&self) -> bool {
        exists|i: int| 0 <= i < self.nodes.len() && #[trigger] self.nodes[i].error
    }

    /// Whether some proper ancestor of node `i` has kind `k`.
    pub open spec fn has_ancestor_spec(&self, i: int, k: Seq<char>) -> bool
        decreases i,
    {
        if 0 <= i < self.nodes.len() {
            match self.nodes[i].parent {
                Some(p) => if p < i {
                    self.kind_is_spec(p as int, k) || self.has_ancestor_spec(p as int, k)
                } else {
                    false
                },
                None => false,
            }
        } else {
            false
        }
    }

    /// Whether the parent of node `i` has kind `k`.
    pub open spec fn has_parent_spec(&self, i: int, k: Seq<char>) -> bool {
        match self.nodes[i].parent {
            Some(p) => self.kind_is_spec(p as int, k),
            None => false,
        }
    }

    /// Whether node `i` is of kind `k`.
    pub fn kind_is(&self, i: usize, k: &str) -> (r: bool)
        requires
            i < self.nodes.len(),
        ensures
            r == self.kind_is_spec(i as int, k@),
    {
        str_eq(self.nodes[i].kind.as_str(), k)
    }

    /// Whether node `i` is held by its parent under the field `name`.
    pub open spec fn field_is_spec(&self, i: int, name: Seq<char>) -> bool {
        self.nodes[i].field matches Some(f) && f@ == name
    }

    /// Whether node `i` is held by its parent under the field `name`.
    pub fn field_is(&self, i: usize, name: &str) -> (r: bool)
        requires
            i < self.nodes.len(),
        ensures
            r == self.field_is_spec(i as int, name@),
    {
        match &self.nodes[i].field {
            Some(f) => str_eq(f.as_str(), name),
            None => false,
        }
    }

    /// Whether the parser reported a syntax error or a missing node anywhere in the tree.
    pub fn has_error(&self) -> (r: bool)
        ensures
            r == self.has_error_spec(),
    {
        let mut i: usize = 0;
        while i < self.nodes.len()
            invariant
                i <= self.nodes.len(),
                forall|j: int| 0 <= j < i ==> !(#[trigger] self.nodes[j]).error,
            decreases self.nodes.len() - i,
        {
            if self.nodes[i].error {
                return true;
            }
            i = i + 1;
        }
        false
    }

    /// Whether some proper ancestor of node `i` has kind `k`: walks from the node up to
    /// the root.
    pub fn has_ancestor(&self, i: usize, k: &str) -> (r: bool)
        requires
            self.wf(),
            i < self.nodes.len(),
        ensures
            r == self.has_ancestor_spec(i as int, k@),
    {
        let mut cur: usize = i;
        loop
            invariant
                self.wf(),
                cur < self.nodes.len(),
                self.has_ancestor_spec(i as int, k@) == self.has_ancestor_spec(cur as int, k@),
            decreases cur,
        {
            assert(self.node_wf(cur as int));
            match self.nodes[cur].parent {
                Some(p) => {
                    if self.kind_is(p, k) {
                        return true;
                    }
                    cur = p;
                },
                None => {
                    return false;
                },
            }
        }
    }

    /// Whether the parent of node `i` has kind `k`.
    pub fn has_parent(&self, i: usize, k: &str) -> (r: bool)
        requires
            self.wf(),
            i < self.nodes.len(),
        ensures
            r == self.has_parent_spec(i as int, k@),
    {
        assert(self.node_wf(i as int));
        match self.nodes[i].parent {
            Some(p) => self.kind_is(p, k),
            None => false,
        }
    }

    /// Index of the first child of node `i`.
    pub fn first_child(&self, i: usize) -> (r: Option<usize>)
        requires
            self.wf(),
            i < self.nodes.len(),
        ensures
            r matches Some(c) ==> i < c < self.nodes.len() && self.nodes[c as int].parent == Some(i),
            r is Some <==> self.first_child_spec(i as int) is Some,
            r matches Some(c) ==> self.first_child_spec(i as int) == Some(c as int),
    {
        if i + 1 < self.nodes.len() && self.nodes[i + 1].parent == Some(i) {
            Some(i + 1)
        } else {
            None
        }
    }

    /// Indices of the children of node `i`, in order.
    pub fn children(&self, i: usize) -> (r: Vec<usize>)
        requires
            self.wf(),
            i < self.nodes.len(),
        ensures
            forall|k: int| 0 <= k < r.len() ==> i < #[trigger] r[k] < self.nodes.len()
                && self.nodes[r[k] as int].parent == Some(i),
            forall|a: int, b: int| 0 <= a < b < r.len() ==> r[a] < r[b],
            r@.map_values(|x: usize| x as int) == self.children_spec(i as int),
    {
        let mut out: Vec<usize> = Vec::new();
        let mut cur = self.first_child(i);
        while cur.is_some()
            invariant
                self.wf(),
                out@.map_values(|x: usize| x as int) + (match cur { Some(c) => self.sibling_chain(c as int), None => Seq::<int>::empty() })
                    == self.children_spec(i as int),
                cur matches Some(c) ==> i < c < self.nodes.len() && self.nodes[c as int].parent == Some(i),
                cur matches Some(c) ==> forall|k: int| 0 <= k < out.len() ==> out[k] < c,
                forall|k: int| 0 <= k < out.len() ==> i < #[trigger] out[k] < self.nodes.len()
                    && self.nodes[out[k] as int].parent == Some(i),
                forall|a: int, b: int| 0 <= a < b < out.len() ==> out[a] < out[b],
            decreases (match cur { Some(c) => self.nodes.len() - c, None => 0 }),
        {
            let c = cur.unwrap();
            assert(self.node_wf(c as int));
            let ghost before = out@;
            out.push(c);
            cur = self.next_sibling[c];
            assert(out@.map_values(|x: usize| x as int) =~= before.map_values(|x: usize| x as int).push(c as int));
            assert(seq![c as int] + (match cur { Some(n) => self.sibling_chain(n as int), None => Seq::<int>::empty() })
                =~= self.sibling_chain(c as int));
            assert(before.map_values(|x: usize| x as int) + self.sibling_chain(c as int)
                =~= out@.map_values(|x: usize| x as int) + (match cur { Some(n) => self.sibling_chain(n as int), None => Seq::<int>::empty() }));
        }
        assert(out@.map_values(|x: usize| x as int) + Seq::<int>::empty() =~= out@.map_values(|x: usize| x as int));
        out
    }

    /// Index of the first child of node `i` held under the field `name`.
    pub fn child_by_field(&self, i: usize, name: &str) -> (r: Option<usize>)
        requires
            self.wf(),
            i < self.nodes.len(),
        ensures
            r matches Some(c) ==> i < c < self.nodes.len() && self.nodes[c as int].parent == Some(i)
                && self.field_is_spec(c as int, name@),
            r is Some <==> self.child_by_field_spec(i as int, name@) is Some,
            r matches Some(c) ==> self.child_by_field_spec(i as int, name@) == Some(c as int),
    {
        let kids = self.children(i);
        let ghost ks = kids@.map_values(|x: usize| x as int);
        let mut k: usize = 0;
        assert(ks.skip(0) =~= ks);
        while k < kids.len()
            invariant
                self.wf(),
                k <= kids.len(),
                ks == kids@.map_values(|x: usize| x as int),
                ks == self.children_spec(i as int),
                self.first_with_field(ks, name@) == self.first_with_field(ks.skip(k as int), name@),
                forall|m: int| 0 <= m < kids.len() ==> i < #[trigger] kids[m] < self.nodes.len()
                    && self.nodes[kids[m] as int].parent == Some(i),
            decreases kids.len() - k,
        {
            assert(ks.skip(k as int)[0] == kids[k as int] as int);
            if self.field_is(kids[k], name) {
                return Some(kids[k]);
            }
            assert(ks.skip(k as int).drop_first() =~= ks.skip(k + 1));
            k = k + 1;
        }
        None
    }

    /// The identifier reached from node `c` by following `declarator` fields.
    pub open spec fn declarator_name_from(&self, c: int) -> Option<int>
        decreases self.nodes.len() - c,
    {
        if !(0 <= c < self.nodes.len()) {
            None
        } else if self.kind_is_spec(c, "identifier"@) {
            Some(c)
        } else {
            match self.child_by_field_spec(c, "declarator"@) {
                Some(n) => if c < n < self.nodes.len() { self.declarator_name_from(n) } else { None },
                None => None,
            }
        }
    }

    /// The identifier that names the function defined by node `i`: from the definition,
    /// follow the `declarator` fields until an `identifier` is reached.
    pub open spec fn function_name_spec(&self, i: int) -> Option<int> {
        if !self.kind_is_spec(i, "function_definition"@) {
            None
        } else {
            match self.child_by_field_spec(i, "declarator"@) {
                Some(c) => if i < c < self.nodes.len() { self.declarator_name_from(c) } else { None },
                None => None,
            }
        }
    }

    /// Index of the identifier that names the function defined by node `i`: from the
    /// definition, follow the `declarator` field until an `identifier` is reached.
    pub fn function_definition_name(&self, i: usize) -> (r: Option<usize>)
        requires
            self.wf(),
            i < self.nodes.len(),
        ensures
            r matches Some(n) ==> i < n < self.nodes.len() && self.kind_is_spec(n as int, "identifier"@),
            r is Some <==> self.function_name_spec(i as int) is Some,
            r matches Some(n) ==> self.function_name_spec(i as int) == Some(n as int),
    {
        if !self.kind_is(i, "function_definition") {
            return None;
        }
        let mut cur: usize = match self.child_by_field(i, "declarator") {
            Some(c) => c,
            None => {
                return None;
            },
        };
        while !self.kind_is(cur, "identifier")
            invariant
                self.wf(),
                i < cur < self.nodes.len(),
                self.function_name_spec(i as int) == self.declarator_name_from(cur as int),
            decreases self.nodes.len() - cur,
        {
            match self.child_by_field(cur, "declarator") {
                Some(c) => {
                    cur = c;
                },
                None => {
                    return None;
                },
            }
        }
        Some(cur)
    }

    /// Node `c` and the siblings that follow it, in order.
    pub open spec fn sibling_chain(&self, c: int) -> Seq<int>
        decreases self.nodes.len() - c,
    {
        if 0 <= c < self.nodes.len() && self.next_sibling.len() == self.nodes.len() {
            match self.next_sibling[c] {
                Some(n) => if c < n && n < self.nodes.len() {
                    seq![c] + self.sibling_chain(n as int)
                } else {
                    seq![c]
                },
                None => seq![c],
            }
        } else {
            Seq::empty()
        }
    }

    /// The first child of node `i`: in document order it comes right after its parent.
    pub open spec fn first_child_spec(&self, i: int) -> Option<int> {
        if i + 1 < self.nodes.len() && self.nodes[i + 1].parent == Some(i as usize) {
            Some(i + 1)
        } else {
            None
        }
    }

    /// The children of node `i`, in order.
    pub open spec fn children_spec(&self, i: int) -> Seq<int> {
        match self.first_child_spec(i) {
            Some(c) => self.sibling_chain(c),
            None => Seq::empty(),
        }
    }

    /// The first of the nodes `kids` held under the field `name`.
    pub open spec fn first_with_field(&self, kids: Seq<int>, name: Seq<char>) -> Option<int>
        decreases kids.len(),
    {
        if kids.len() == 0 {
            None
        } else if self.field_is_spec(kids[0], name) {
            Some(kids[0])
        } else {
            self.first_with_field(kids.drop_first(), name)
        }
    }

    /// The nodes of `kids` held under the field `name`, in order.
    pub open spec fn with_field(&self, kids: Seq<int>, name: Seq<char>) -> Seq<int>
        decreases kids.len(),
    {
        if kids.len() == 0 {
            Seq::empty()
        } else if self.field_is_spec(kids[0], name) {
            seq![kids[0]] + self.with_field(kids.drop_first(), name)
        } else {
            self.with_field(kids.drop_first(), name)
        }
    }

    /// The first child of node `i` held under the field `name`.
    pub open spec fn child_by_field_spec(&self, i: int, name: Seq<char>) -> Option<int> {
        self.first_with_field(self.children_spec(i), name)
    }

    /// A tree with no nodes, for a text that the parser could not handle.
    pub fn empty(text_len: usize) -> (r: Self)
        ensures
            r.wf(),
            r.nodes.len() == 0,
            r.text_len == text_len,
    {
        SyntaxTree { nodes: Vec::new(), next_sibling: Vec::new(), text_len }
    }

    /// Parses `code` as C and records the resulting tree, which holds the parser's node
    /// records; a tree with no nodes where the parser gives none.
    pub fn parse(code: &str) -> (r: Self)
        ensures
            r.wf(),
            r.text_len == code.spec_bytes().len(),
            match c_syntax_of(code@) {
                Some(v) => holds_records(r, v),
                None => r.nodes.len() == 0,
            },
    {
        let text_len = code.as_bytes().len();
        match parse_c(code) {
            Some(recs) => Self::from_records(&recs, text_len),
            None => Self::empty(text_len),
        }
    }

    /// Builds the tree that the records `recs` describe: each node's parent is the last
    /// record before it one level up. Byte ranges that are reversed or past `text_len`
    /// are clamped.
    pub fn from_records(recs: &Vec<RawNode>, text_len: usize) -> (r: Self)
        ensures
            r.wf(),
            r.text_len == text_len,
            holds_records(r, recs@.map_values(|n: RawNode| raw_view(n))),
    {
        let ghost v = recs@.map_values(|n: RawNode| raw_view(n));
        let mut nodes: Vec<SyntaxNode> = Vec::new();
        let mut next: Vec<Option<usize>> = Vec::new();
        let mut last_child: Vec<Option<usize>> = Vec::new();
        let mut last_root: Option<usize> = None;
        let mut last: Vec<Option<usize>> = Vec::new();
        let mut i: usize = 0;
        while i < recs.len()
            invariant
                v == recs@.map_values(|n: RawNode| raw_view(n)),
                i <= recs.len(),
                nodes.len() == i,
                next.len() == i,
                last_child.len() == i,
                forall|k: int| 0 <= k < i ==> #[trigger] node_wf(nodes@, next@, text_len, k),
                forall|d: int| 0 <= d < last.len() ==> opt_int(#[trigger] last[d]) == last_at_depth(v, i as int, d),
                forall|d: int| d >= last.len() ==> #[trigger] last_at_depth(v, i as int, d) is None,
                forall|p: int| 0 <= p < i ==> opt_int(#[trigger] last_child[p]) == last_child_before(v, i as int, Some(p)),
                opt_int(last_root) == last_child_before(v, i as int, None),
                forall|k: int| 0 <= k < i ==> opt_int(#[trigger] next@[k]) == next_of(v, k, i as int),
                forall|k: int| 0 <= k < i ==> {
                    let n = #[trigger] nodes[k];
                    let rec = v[k];
                    &&& n.kind@ == rec.0
                    &&& n.named == rec.1
                    &&& (match n.field { Some(f) => Some(f@), None => None }) == rec.2
                    &&& (rec.3 <= rec.4 <= text_len ==> n.start == rec.3 && n.end == rec.4)
                    &&& n.error == (rec.6 || rec.7)
                    &&& opt_int(n.parent) == parent_of(v, k)
                    &&& opt_int(next[k]) == next_of(v, k, i as int)
                },
            decreases recs.len() - i,
        {
            let rec = &recs[i];
            assert(v[i as int] == raw_view(recs@[i as int]));
            let d = rec.depth;
            let parent = if d == 0 {
                None
            } else if d - 1 < last.len() {
                last[d - 1]
            } else {
                None
            };
            proof {
                lemma_last_at_depth_bound(v, i as int, d - 1);
                assert(opt_int(parent) == parent_of(v, i as int));
            }
            let start = if rec.start <= text_len { rec.start } else { text_len };
            let end = if rec.end < start { start } else if rec.end <= text_len { rec.end } else { text_len };
            let field = match &rec.field {
                Some(f) => Some(f.clone()),
                None => None,
            };
            let node = SyntaxNode {
                kind: rec.kind.clone(),
                named: rec.named,
                field,
                start,
                end,
                parent,
                error: rec.error || rec.missing,
            };
            let ghost old_nodes = nodes@;
            let ghost old_next = next@;
            let ghost old_lc = last_child@;
            let ghost old_root = last_root;
            let ghost q = parent_of(v, i as int);
            let prev = match parent {
                Some(p) => last_child[p],
                None => last_root,
            };
            proof {
                lemma_last_child_bound(v, i as int, q);
                assert(opt_int(prev) == last_child_before(v, i as int, q));
            }
            nodes.push(node);
            next.push(None);
            last_child.push(None);
            match prev {
                Some(pv) => {
                    next.set(pv, Some(i));
                },
                None => {},
            }
            match parent {
                Some(p) => {
                    last_child.set(p, Some(i));
                },
                None => {
                    last_root = Some(i);
                },
            }
            let ghost old_len = last.len();
            // Record that `i` is now the last node at depth `d`.
            while last.len() < d
                invariant
                    forall|e: int| 0 <= e < last.len() ==> opt_int(#[trigger] last[e]) == last_at_depth(v, i as int, e),
                    forall|e: int| e >= last.len() ==> #[trigger] last_at_depth(v, i as int, e) is None,
                decreases d - last.len(),
            {
                last.push(None);
            }
            if d < last.len() {
                last.set(d, Some(i));
            } else {
                last.push(Some(i));
            }
            proof {
                let n1 = i + 1;
                assert forall|e: int| 0 <= e < last.len() implies opt_int(#[trigger] last[e]) == last_at_depth(v, n1 as int, e) by {}
                assert(v[i as int].5 == d);
                assert forall|e: int| e >= last.len() implies #[trigger] last_at_depth(v, n1 as int, e) is None by {
                    assert(e != d);
                    assert(last_at_depth(v, n1 as int, e) == last_at_depth(v, i as int, e));
                }
                assert forall|p: int| 0 <= p < n1 implies opt_int(#[trigger] last_child[p]) == last_child_before(v, n1 as int, Some(p)) by {
                    if p == i {
                        lemma_last_child_bound(v, i as int, Some(p));
                        match last_child_before(v, i as int, Some(p)) {
                            Some(j) => {
                                lemma_last_at_depth_bound(v, j, v[j].5 - 1);
                            },
                            None => {},
                        }
                        lemma_last_at_depth_bound(v, i as int, d - 1);
                    }
                }
                assert forall|k: int| 0 <= k < n1 implies opt_int(#[trigger] next@[k]) == next_of(v, k, n1 as int) by {
                    if k < i {
                        lemma_last_child(v, i as int, k);
                        assert(parent_of(v, i as int) == q);
                        assert(next_of(v, k, n1 as int) == match next_of(v, k, i as int) {
                            Some(j) => Some(j),
                            None => if parent_of(v, i as int) == parent_of(v, k) { Some(i as int) } else { None },
                        });
                        assert(opt_int(old_next[k]) == next_of(v, k, i as int));
                        if opt_int(prev) == Some(k) {
                            assert(parent_of(v, k) == q);
                            assert(next_of(v, k, i as int) is None);
                            assert(next@[k] == Some(i));
                        } else {
                            assert(next@[k] == old_next[k]);
                            if next_of(v, k, i as int) is None {
                                assert(parent_of(v, k) != q);
                            }
                        }
                    } else {
                        assert(next@[k] == None::<usize>);
                        assert(next_of(v, k, n1 as int) is None);
                    }
                }
                assert forall|k: int| 0 <= k < n1 implies #[trigger] node_wf(nodes@, next@, text_len, k) by {
                    lemma_next_of_bound(v, k, n1 as int);
                    if k < i {
                        assert(old_nodes[k] == nodes@[k]);
                        assert(node_wf(old_nodes, old_next, text_len, k));
                        if opt_int(prev) == Some(k) {
                            assert(next@[k] == Some(i));
                            assert(opt_int(nodes@[k].parent) == opt_int(nodes@[i as int].parent));
                            assert(nodes@[k].parent == nodes@[i as int].parent);
                        } else {
                            assert(next@[k] == old_next[k]);
                        }
                    } else {
                        lemma_last_at_depth_bound(v, i as int, d - 1);
                        assert(next@[k] == None::<usize>);
                    }
                }
            }
            i = i + 1;
        }
        SyntaxTree { nodes, next_sibling: next, text_len }
    }
}

} // verus!
