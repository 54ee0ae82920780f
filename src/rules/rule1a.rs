//! Rule I:A: declared names must be in lower snake case.

use vstd::prelude::*;
use crate::diagnostic::{Diagnostic, RuleDescription, SourceRange, Span};
use crate::rules::rule12a::node_text_spec;
use crate::source::{push_char, push_str, SourceInfo};
use crate::syntax::SyntaxTree;

verus! {

/// Whether `c` is an ASCII uppercase letter.
pub open spec fn is_upper(c: char) -> bool {
    'A' <= c && c <= 'Z'
}

/// Whether `c` is an ASCII lowercase letter.
pub open spec fn is_lower(c: char) -> bool {
    'a' <= c && c <= 'z'
}

/// `c` with an ASCII uppercase letter made lowercase.
pub open spec fn ascii_lower(c: char) -> char {
    if is_upper(c) {
        (((c as u32) + 32) as u8) as char
    } else {
        c
    }
}

/// What character `i` of `s` becomes in the lower-snake-case guess: an ASCII
/// uppercase letter is made lowercase, with an underscore before it where the character
/// just before it is an ASCII lowercase letter; every other character stays.
pub open spec fn snake_piece(s: Seq<char>, i: int) -> Seq<char> {
    if is_upper(s[i]) {
        if i > 0 && is_lower(s[i - 1]) {
            seq!['_', ascii_lower(s[i])]
        } else {
            seq![ascii_lower(s[i])]
        }
    } else {
        seq![s[i]]
    }
}

/// The lower-snake-case guess for the first `n` characters of `s`.
pub open spec fn snake_upto(s: Seq<char>, n: int) -> Seq<char>
    decreases n,
{
    if n <= 0 {
        Seq::empty()
    } else {
        snake_upto(s, n - 1) + snake_piece(s, n - 1)
    }
}

/// The lower-snake-case guess for `s`.
pub open spec fn snake_case_of(s: Seq<char>) -> Seq<char> {
    snake_upto(s, s.len() as int)
}

/// Attempts to convert a name to lower snake case: ASCII uppercase letters are made
/// lowercase, and one that directly follows an ASCII lowercase letter gets an
/// underscore before it.
pub fn guess_lower_snake_case(name: &str) -> (r: String)
    ensures
        r@ == snake_case_of(name@),
{
    let cs = crate::text::chars_of(name);
    let mut out = String::new();
    let mut i: usize = 0;
    while i < cs.len()
        invariant
            i <= cs.len(),
            cs@ == name@,
            out@ == snake_upto(cs@, i as int),
        decreases cs.len() - i,
    {
        let c = cs[i];
        let ghost before = out@;
        if 'A' <= c && c <= 'Z' {
            if i > 0 && 'a' <= cs[i - 1] && cs[i - 1] <= 'z' {
                push_char(&mut out, '_');
            }
            push_char(&mut out, (((c as u32) + 32) as u8) as char);
        } else {
            push_char(&mut out, c);
        }
        assert(out@ =~= before + snake_piece(cs@, i as int));
        i = i + 1;
    }
    out
}

/// Whether `s` holds an ASCII uppercase letter.
pub open spec fn has_uppercase(s: Seq<char>) -> bool {
    exists|i: int| 0 <= i < s.len() && is_upper(#[trigger] s[i])
}

/// Whether `s` holds an ASCII uppercase letter.
pub fn contains_uppercase(s: &str) -> (r: bool)
    ensures
        r == has_uppercase(s@),
{
    let cs = crate::text::chars_of(s);
    let mut k: usize = 0;
    while k < cs.len()
        invariant
            k <= cs.len(),
            cs@ == s@,
            forall|i: int| 0 <= i < k ==> !is_upper(#[trigger] cs@[i]),
        decreases cs.len() - k,
    {
        if 'A' <= cs[k] && cs[k] <= 'Z' {
            return true;
        }
        k = k + 1;
    }
    false
}

/// The named nodes of `kids`, in order.
pub open spec fn named_of(t: SyntaxTree, kids: Seq<int>) -> Seq<int>
    decreases kids.len(),
{
    if kids.len() == 0 {
        Seq::empty()
    } else if t.nodes[kids[0]].named {
        seq![kids[0]] + named_of(t, kids.drop_first())
    } else {
        named_of(t, kids.drop_first())
    }
}

/// The names that node `i` declares: itself for an identifier held as a declarator, the
/// named children of a parenthesized declarator, and the name of a struct, union or
/// enum declared with a body.
pub open spec fn declared_names(t: SyntaxTree, i: int) -> Seq<int> {
    if t.field_is_spec(i, "declarator"@) {
        if t.kind_is_spec(i, "identifier"@) || t.kind_is_spec(i, "field_identifier"@)
            || t.kind_is_spec(i, "type_identifier"@) {
            seq![i]
        } else if t.kind_is_spec(i, "parenthesized_declarator"@) {
            named_of(t, t.children_spec(i))
        } else {
            Seq::empty()
        }
    } else if t.kind_is_spec(i, "struct_specifier"@) || t.kind_is_spec(i, "union_specifier"@)
        || t.kind_is_spec(i, "enum_specifier"@) {
        match (t.child_by_field_spec(i, "name"@), t.child_by_field_spec(i, "body"@)) {
            (Some(n), Some(_)) => if t.kind_is_spec(n, "type_identifier"@) { seq![n] } else { Seq::empty() },
            _ => Seq::empty(),
        }
    } else {
        Seq::empty()
    }
}

/// The names of `names` whose text holds an uppercase letter, in order.
pub open spec fn uppercase_names(s: Seq<char>, t: SyntaxTree, names: Seq<int>) -> Seq<int>
    decreases names.len(),
{
    if names.len() == 0 {
        Seq::empty()
    } else if has_uppercase(node_text_spec(s, t, names[0])) {
        seq![names[0]] + uppercase_names(s, t, names.drop_first())
    } else {
        uppercase_names(s, t, names.drop_first())
    }
}

/// The names declared by the nodes before `n` that hold an uppercase letter, in order.
pub open spec fn bad_names_before(s: Seq<char>, t: SyntaxTree, n: int) -> Seq<int>
    decreases n,
{
    if n <= 0 {
        Seq::empty()
    } else {
        bad_names_before(s, t, n - 1) + uppercase_names(s, t, declared_names(t, n - 1))
    }
}

/// The word that says what kind of thing name `n` names, from its parent.
pub open spec fn name_kind(t: SyntaxTree, n: int) -> Seq<char> {
    if t.has_parent_spec(n, "function_declarator"@) {
        "Function"@
    } else if t.has_parent_spec(n, "struct_specifier"@) {
        "Struct"@
    } else if t.has_parent_spec(n, "union_specifier"@) {
        "Union"@
    } else if t.has_parent_spec(n, "enum_specifier"@) {
        "Enum"@
    } else if t.has_parent_spec(n, "type_definition"@) {
        "Type"@
    } else {
        "Variable"@
    }
}

/// Whether `d` reports name `n`: over the name, saying what it names, and suggesting
/// its lower-snake-case form.
pub open spec fn reports_name(d: Diagnostic, s: Seq<char>, t: SyntaxTree, n: int) -> bool {
    &&& d.rule == Rule1a::description()
    &&& d.ranges_consistent_with(s)
    &&& d.violations.len() == 1
    &&& d.references.len() == 1
    &&& d.violations[0].range.bytes.start == t.nodes[n].start
    &&& d.violations[0].range.bytes.end == t.nodes[n].end
    &&& d.message@ == name_kind(t, n) + " names must be in lower snake case."@
    &&& d.suggestion matches Some(fix) && fix@ == snake_case_of(node_text_spec(s, t, n))
    &&& d.notes.len() == 0
    &&& d.violations[0].label@ == "Name contains uppercase character(s)"@
    &&& d.references[0].range.bytes.start == t.nodes[n].start
    &&& d.references[0].range.bytes.end == t.nodes[n].end
    &&& d.references[0].label@ == "Perhaps you meant `"@ + snake_case_of(node_text_spec(s, t, n)) + "'"@
}

/// Rule I:A.
pub struct Rule1a {}

impl Rule1a {
    /// The rule's description.
    pub open spec fn description() -> RuleDescription {
        RuleDescription {
            group_number: 1,
            letter: 'A',
            code: "I:A",
            name: "LowerSnakeCase",
            description: "names must be in lower snake case",
        }
    }

    /// Returns the rule's description.
    pub fn describe(&self) -> (r: RuleDescription)
        ensures
            r == Self::description(),
    {
        RuleDescription {
            group_number: 1,
            letter: 'A',
            code: "I:A",
            name: "LowerSnakeCase",
            description: "names must be in lower snake case",
        }
    }

    /// The diagnostic for name node `n`, if its text holds an uppercase letter.
    fn check_name(&self, source: &SourceInfo, n: usize) -> (r: Option<Diagnostic>)
        requires
            source.wf(),
            n < source.tree.nodes.len(),
        ensures
            r is Some <==> has_uppercase(node_text_spec(source.text(), source.tree, n as int)),
            r matches Some(d) ==> reports_name(d, source.text(), source.tree, n as int),
    {
        let tree = &source.tree;
        let text = source.node_text(n);
        if !contains_uppercase(text.as_str()) {
            return None;
        }
        let kind = if tree.has_parent(n, "function_declarator") {
            "Function"
        } else if tree.has_parent(n, "struct_specifier") {
            "Struct"
        } else if tree.has_parent(n, "union_specifier") {
            "Union"
        } else if tree.has_parent(n, "enum_specifier") {
            "Enum"
        } else if tree.has_parent(n, "type_definition") {
            "Type"
        } else {
            "Variable"
        };
        let mut message = kind.to_owned();
        push_str(&mut message, " names must be in lower snake case.");
        let fix = guess_lower_snake_case(text.as_str());
        let mut hint = "Perhaps you meant `".to_owned();
        push_str(&mut hint, fix.as_str());
        push_str(&mut hint, "'");
        assert(tree.node_wf(n as int));
        let filename = source.filename.as_str();
        let range = SourceRange::from_byte_range(tree.nodes[n].start..tree.nodes[n].end, source);
        let again = SourceRange::from_byte_range(tree.nodes[n].start..tree.nodes[n].end, source);
        let d = Diagnostic::new(self.describe(), message)
            .with_violation(Span::new(filename, range, "Name contains uppercase character(s)".to_owned()))
            .with_reference(Span::new(filename, again, hint))
            .with_suggestion(fix);
        Some(d)
    }

    /// The names that node `i` declares.
    fn names_of(&self, source: &SourceInfo, i: usize) -> (r: Vec<usize>)
        requires
            source.wf(),
            i < source.tree.nodes.len(),
        ensures
            r@.map_values(|x: usize| x as int) == declared_names(source.tree, i as int),
            forall|m: int| 0 <= m < r.len() ==> #[trigger] r[m] < source.tree.nodes.len(),
    {
        let tree = &source.tree;
        let mut names: Vec<usize> = Vec::new();
        if tree.field_is(i, "declarator") {
            if tree.kind_is(i, "identifier") || tree.kind_is(i, "field_identifier") || tree.kind_is(i, "type_identifier") {
                names.push(i);
                assert(names@.map_values(|x: usize| x as int) =~= seq![i as int]);
            } else if tree.kind_is(i, "parenthesized_declarator") {
                let kids = tree.children(i);
                let ghost ks = kids@.map_values(|x: usize| x as int);
                let mut k: usize = 0;
                assert(ks.skip(0) =~= ks);
                assert(names@.map_values(|x: usize| x as int) + named_of(*tree, ks.skip(0)) =~= named_of(*tree, ks));
                while k < kids.len()
                    invariant
                        tree.wf(),
                        tree == &source.tree,
                        k <= kids.len(),
                        ks == kids@.map_values(|x: usize| x as int),
                        ks == tree.children_spec(i as int),
                        forall|m: int| 0 <= m < kids.len() ==> #[trigger] kids[m] < tree.nodes.len(),
                        forall|m: int| 0 <= m < names.len() ==> #[trigger] names[m] < tree.nodes.len(),
                        names@.map_values(|x: usize| x as int) + named_of(*tree, ks.skip(k as int)) == named_of(*tree, ks),
                    decreases kids.len() - k,
                {
                    let ghost before = names@;
                    assert(ks.skip(k as int)[0] == kids[k as int] as int);
                    assert(ks.skip(k as int).drop_first() =~= ks.skip(k + 1));
                    if tree.nodes[kids[k]].named {
                        names.push(kids[k]);
                        assert(names@.map_values(|x: usize| x as int) =~= before.map_values(|x: usize| x as int).push(kids[k as int] as int));
                        assert(names@.map_values(|x: usize| x as int) + named_of(*tree, ks.skip(k + 1))
                            =~= before.map_values(|x: usize| x as int) + named_of(*tree, ks.skip(k as int)));
                    }
                    k = k + 1;
                }
                assert(ks.skip(k as int) =~= Seq::<int>::empty());
                assert(names@.map_values(|x: usize| x as int) + Seq::<int>::empty() =~= names@.map_values(|x: usize| x as int));
            } else {
                assert(names@.map_values(|x: usize| x as int) =~= Seq::<int>::empty());
            }
        } else if tree.kind_is(i, "struct_specifier") || tree.kind_is(i, "union_specifier") || tree.kind_is(i, "enum_specifier") {
            match (tree.child_by_field(i, "name"), tree.child_by_field(i, "body")) {
                (Some(name), Some(_)) => {
                    if tree.kind_is(name, "type_identifier") {
                        names.push(name);
                    }
                },
                _ => {},
            }
            assert(names@.map_values(|x: usize| x as int) =~= declared_names(*tree, i as int));
        } else {
            assert(names@.map_values(|x: usize| x as int) =~= Seq::<int>::empty());
        }
        names
    }

    /// What `check` returns on `source`.
    pub open spec fn checked(&self, source: SourceInfo, r: Seq<Diagnostic>) -> bool {
        &&& r.len() == bad_names_before(source.text(), source.tree, source.tree.nodes.len() as int).len()
        &&& forall|k: int| 0 <= k < r.len() ==> reports_name(#[trigger] r[k], source.text(), source.tree,
            bad_names_before(source.text(), source.tree, source.tree.nodes.len() as int)[k])
    }

    /// One diagnostic per declared name that holds an uppercase ASCII letter, in
    /// document order: names of declarators (variables, parameters, fields, typedefs,
    /// names in parentheses) and names of structs, unions and enums declared with a body.
    pub fn check(&self, source: &SourceInfo) -> (r: Vec<Diagnostic>)
        requires
            source.wf(),
        ensures
            self.checked(*source, r@),
            r.len() == bad_names_before(source.text(), source.tree, source.tree.nodes.len() as int).len(),
            forall|k: int| 0 <= k < r.len() ==> reports_name(#[trigger] r[k], source.text(), source.tree,
                bad_names_before(source.text(), source.tree, source.tree.nodes.len() as int)[k]),
    {
        let tree = &source.tree;
        let ghost s = source.text();
        let mut diags: Vec<Diagnostic> = Vec::new();
        let mut i: usize = 0;
        while i < tree.nodes.len()
            invariant
                source.wf(),
                tree == &source.tree,
                s == source.text(),
                i <= tree.nodes.len(),
                diags.len() == bad_names_before(s, *tree, i as int).len(),
                forall|k: int| 0 <= k < diags.len() ==> reports_name(#[trigger] diags[k], s, *tree,
                    bad_names_before(s, *tree, i as int)[k]),
            decreases tree.nodes.len() - i,
        {
            let names = self.names_of(source, i);
            let ghost ns = names@.map_values(|x: usize| x as int);
            let ghost start = diags@;
            let ghost base = bad_names_before(s, *tree, i as int);
            let mut k: usize = 0;
            assert(ns.skip(0) =~= ns);
            assert(base + uppercase_names(s, *tree, ns) =~= base + Seq::<int>::empty() + uppercase_names(s, *tree, ns.skip(0)));
            while k < names.len()
                invariant
                    source.wf(),
                    tree == &source.tree,
                    s == source.text(),
                    k <= names.len(),
                    ns == names@.map_values(|x: usize| x as int),
                    forall|m: int| 0 <= m < names.len() ==> #[trigger] names[m] < tree.nodes.len(),
                    start.len() == base.len(),
                    diags.len() >= start.len(),
                    forall|m: int| 0 <= m < start.len() ==> diags[m] == start[m],
                    forall|m: int| 0 <= m < start.len() ==> reports_name(#[trigger] start[m], s, *tree, base[m]),
                    base + uppercase_names(s, *tree, ns) == bad_names_before(s, *tree, i + 1),
                    ({
                        let done = diags@.skip(start.len() as int);
                        let todo = uppercase_names(s, *tree, ns.skip(k as int));
                        let all = uppercase_names(s, *tree, ns);
                        &&& done.len() + todo.len() == all.len()
                        &&& forall|m: int| 0 <= m < done.len() ==> reports_name(#[trigger] done[m], s, *tree, all[m])
                        &&& forall|m: int| 0 <= m < todo.len() ==> #[trigger] todo[m] == all[done.len() + m]
                    }),
                decreases names.len() - k,
            {
                let ghost pre = diags@;
                let ghost done = pre.skip(start.len() as int);
                let ghost all = uppercase_names(s, *tree, ns);
                let ghost todo = uppercase_names(s, *tree, ns.skip(k as int));
                let ghost rest = uppercase_names(s, *tree, ns.skip(k + 1));
                assert(ns.skip(k as int)[0] == names[k as int] as int);
                assert(ns.skip(k as int).drop_first() =~= ns.skip(k + 1));
                match self.check_name(source, names[k]) {
                    Some(d) => {
                        diags.push(d);
                        assert(todo == seq![names[k as int] as int] + rest);
                        assert(todo[0] == all[done.len() as int]);
                        assert(diags@.skip(start.len() as int) =~= done.push(d));
                        assert forall|m: int| 0 <= m < rest.len() implies #[trigger] rest[m] == all[done.len() + 1 + m] by {
                            assert(rest[m] == todo[m + 1]);
                        }
                    },
                    None => {
                        assert(todo == rest);
                        assert(diags@.skip(start.len() as int) =~= done);
                    },
                }
                k = k + 1;
            }
            proof {
                let done = diags@.skip(start.len() as int);
                let all = uppercase_names(s, *tree, ns);
                assert(ns.skip(k as int) =~= Seq::<int>::empty());
                assert(uppercase_names(s, *tree, Seq::<int>::empty()) =~= Seq::<int>::empty());
                assert(done.len() == all.len());
                assert(bad_names_before(s, *tree, i + 1) == base + all);
                assert forall|m: int| 0 <= m < diags.len() implies reports_name(#[trigger] diags[m], s, *tree,
                    bad_names_before(s, *tree, i + 1)[m]) by {
                    if m >= start.len() {
                        assert(diags[m] == done[m - start.len()]);
                        assert((base + all)[m] == all[m - base.len()]);
                    } else {
                        assert(diags[m] == start[m]);
                        assert((base + all)[m] == base[m]);
                    }
                }
            }
            i = i + 1;
        }
        diags
    }
}

} // verus!
