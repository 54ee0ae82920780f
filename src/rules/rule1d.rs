//! Rule I:D: global variables are prefixed with `g_`, and all top-level declarations
//! come before the function definitions.

use vstd::prelude::*;
use crate::diagnostic::{Diagnostic, RuleDescription, SourceRange, Span};
use crate::rules::rule12a::node_text_spec;
use crate::source::{push_str, SourceInfo};
use crate::syntax::SyntaxTree;

verus! {

/// Whether `s` starts with `g_`.
pub open spec fn has_global_prefix(s: Seq<char>) -> bool {
    s.len() >= 2 && s[0] == 'g' && s[1] == '_'
}

/// Whether `s` starts with `g_`.
pub fn starts_with_global_prefix(s: &str) -> (r: bool)
    ensures
        r == has_global_prefix(s@),
{
    let cs = crate::text::chars_of(s);
    cs.len() >= 2 && cs[0] == 'g' && cs[1] == '_'
}

/// Whether node `i` is a function definition at the top level.
pub open spec fn is_top_function(t: SyntaxTree, i: int) -> bool {
    t.kind_is_spec(i, "function_definition"@) && t.has_parent_spec(i, "translation_unit"@)
}

/// Whether node `i` is a declaration directly under the translation unit.
pub open spec fn is_top_declaration(t: SyntaxTree, i: int) -> bool {
    t.has_parent_spec(i, "translation_unit"@) && (t.kind_is_spec(i, "declaration"@)
        || t.kind_is_spec(i, "type_definition"@) || t.kind_is_spec(i, "struct_specifier"@)
        || t.kind_is_spec(i, "union_specifier"@) || t.kind_is_spec(i, "enum_specifier"@))
}

/// The first top-level function definition among the nodes before `n`.
pub open spec fn first_function_before(t: SyntaxTree, n: int) -> Option<int>
    decreases n,
{
    if n <= 0 {
        None
    } else {
        match first_function_before(t, n - 1) {
            Some(f) => Some(f),
            None => if is_top_function(t, n - 1) { Some(n - 1) } else { None },
        }
    }
}

/// Whether node `i` names a variable declared outside any function without the `g_`
/// prefix (function declarations are exempt).
pub open spec fn lacks_prefix(s: Seq<char>, t: SyntaxTree, i: int) -> bool {
    &&& t.kind_is_spec(i, "identifier"@)
    &&& t.field_is_spec(i, "declarator"@)
    &&& !t.has_ancestor_spec(i, "function_declarator"@)
    &&& !t.has_ancestor_spec(i, "function_definition"@)
    &&& !has_global_prefix(node_text_spec(s, t, i))
}

/// Whether node `i` is a top-level declaration after the first function definition.
pub open spec fn is_late(t: SyntaxTree, i: int) -> bool {
    !is_top_function(t, i) && is_top_declaration(t, i) && first_function_before(t, i) is Some
}

/// The reports for node `i`: `true` for a late declaration, `false` for a missing prefix.
pub open spec fn global_findings(s: Seq<char>, t: SyntaxTree, i: int) -> Seq<(int, bool)> {
    (if is_late(t, i) { seq![(i, true)] } else { Seq::empty() })
        + (if lacks_prefix(s, t, i) { seq![(i, false)] } else { Seq::empty() })
}

/// The reports for the nodes before `n`, in order.
pub open spec fn global_findings_before(s: Seq<char>, t: SyntaxTree, n: int) -> Seq<(int, bool)>
    decreases n,
{
    if n <= 0 {
        Seq::empty()
    } else {
        global_findings_before(s, t, n - 1) + global_findings(s, t, n - 1)
    }
}

/// Whether `d` is the report `f`: over the node, with the first function as reference
/// for a late declaration and the node itself for a missing prefix.
pub open spec fn reports_global(d: Diagnostic, s: Seq<char>, t: SyntaxTree, f: (int, bool)) -> bool {
    let n = t.nodes[f.0];
    let reference = if f.1 { t.nodes[first_function_before(t, f.0)->0] } else { n };
    &&& d.rule == Rule1d::description()
    &&& d.ranges_consistent_with(s)
    &&& d.violations.len() == 1
    &&& d.references.len() == 1
    &&& d.violations[0].range.bytes.start == n.start && d.violations[0].range.bytes.end == n.end
    &&& d.references[0].range.bytes.start == reference.start && d.references[0].range.bytes.end == reference.end
    &&& d.message@ == (if f.1 {
        "All top-level declarations must come before function definitions"@
    } else {
        "Global variables must be prefixed with `g_'"@
    })
    &&& d.notes.len() == 0
    &&& d.suggestion is None
    &&& d.violations[0].label@ == (if f.1 { "Declaration occurs here"@ } else { "Variable declared here"@ })
    &&& d.references[0].label@ == (if f.1 {
        "First function defined here"@
    } else {
        "Perhaps you meant `g_"@ + node_text_spec(s, t, f.0) + "'"@
    })
}

/// Rule I:D.
pub struct Rule1d {}

impl Rule1d {
    /// The rule's description.
    pub open spec fn description() -> RuleDescription {
        RuleDescription {
            group_number: 1,
            letter: 'D',
            code: "I:D",
            name: "GlobalVariables",
            description: "global variables must be prefixed with g_ and declared before functions",
        }
    }

    /// Returns the rule's description.
    pub fn describe(&self) -> (r: RuleDescription)
        ensures
            r == Self::description(),
    {
        RuleDescription {
            group_number: 1,
            letter: 'D',
            code: "I:D",
            name: "GlobalVariables",
            description: "global variables must be prefixed with g_ and declared before functions",
        }
    }

    /// Whether node `i` is a declaration directly under the translation unit.
    fn is_top_level_declaration(&self, source: &SourceInfo, i: usize) -> (r: bool)
        requires
            source.wf(),
            i < source.tree.nodes.len(),
        ensures
            r == is_top_declaration(source.tree, i as int),
    {
        let tree = &source.tree;
        tree.has_parent(i, "translation_unit") && (tree.kind_is(i, "declaration")
            || tree.kind_is(i, "type_definition") || tree.kind_is(i, "struct_specifier")
            || tree.kind_is(i, "union_specifier") || tree.kind_is(i, "enum_specifier"))
    }

    /// What `check` returns on `source`.
    pub open spec fn checked(&self, source: SourceInfo, r: Seq<Diagnostic>) -> bool {
        &&& r.len() == global_findings_before(source.text(), source.tree, source.tree.nodes.len() as int).len()
        &&& forall|k: int| 0 <= k < r.len() ==> reports_global(#[trigger] r[k], source.text(), source.tree,
            global_findings_before(source.text(), source.tree, source.tree.nodes.len() as int)[k])
    }

    /// Reports every declared variable outside the functions whose name does not start
    /// with `g_` (function declarations are exempt), and every top-level declaration
    /// that comes after the first function definition, with that function as reference.
    pub fn check(&self, source: &SourceInfo) -> (r: Vec<Diagnostic>)
        requires
            source.wf(),
        ensures
            self.checked(*source, r@),
            r.len() == global_findings_before(source.text(), source.tree, source.tree.nodes.len() as int).len(),
            forall|k: int| 0 <= k < r.len() ==> reports_global(#[trigger] r[k], source.text(), source.tree,
                global_findings_before(source.text(), source.tree, source.tree.nodes.len() as int)[k]),
    {
        let tree = &source.tree;
        let ghost s = source.text();
        let filename = source.filename.as_str();
        let mut diags: Vec<Diagnostic> = Vec::new();
        let mut first_function: Option<usize> = None;
        let mut i: usize = 0;
        while i < tree.nodes.len()
            invariant
                source.wf(),
                tree == &source.tree,
                s == source.text(),
                i <= tree.nodes.len(),
                first_function matches Some(f) ==> f < tree.nodes.len(),
                first_function is Some <==> first_function_before(*tree, i as int) is Some,
                first_function matches Some(f) ==> first_function_before(*tree, i as int) == Some(f as int),
                diags.len() == global_findings_before(s, *tree, i as int).len(),
                forall|k: int| 0 <= k < diags.len() ==> reports_global(#[trigger] diags[k], s, *tree,
                    global_findings_before(s, *tree, i as int)[k]),
            decreases tree.nodes.len() - i,
        {
            assert(tree.node_wf(i as int));
            let ghost before = diags@;
            let ghost mut found: Seq<(int, bool)> = Seq::empty();
            let top_function = tree.kind_is(i, "function_definition") && tree.has_parent(i, "translation_unit");
            if top_function {
                if first_function.is_none() {
                    first_function = Some(i);
                }
            } else if self.is_top_level_declaration(source, i) {
                match first_function {
                    Some(f) => {
                        assert(tree.node_wf(f as int));
                        let range = SourceRange::from_byte_range(tree.nodes[i].start..tree.nodes[i].end, source);
                        let func = SourceRange::from_byte_range(tree.nodes[f].start..tree.nodes[f].end, source);
                        let d = Diagnostic::new(self.describe(), "All top-level declarations must come before function definitions".to_owned())
                            .with_violation(Span::new(filename, range, "Declaration occurs here".to_owned()))
                            .with_reference(Span::new(filename, func, "First function defined here".to_owned()));
                        diags.push(d);
                        proof { found = found.push((i as int, true)); }
                    },
                    None => {},
                }
            }
            if tree.kind_is(i, "identifier") && tree.field_is(i, "declarator")
                && !tree.has_ancestor(i, "function_declarator") && !tree.has_ancestor(i, "function_definition") {
                let text = source.node_text(i);
                if !starts_with_global_prefix(text.as_str()) {
                    let mut hint = "Perhaps you meant `g_".to_owned();
                    push_str(&mut hint, text.as_str());
                    push_str(&mut hint, "'");
                    let range = SourceRange::from_byte_range(tree.nodes[i].start..tree.nodes[i].end, source);
                    let again = SourceRange::from_byte_range(tree.nodes[i].start..tree.nodes[i].end, source);
                    let d = Diagnostic::new(self.describe(), "Global variables must be prefixed with `g_'".to_owned())
                        .with_violation(Span::new(filename, range, "Variable declared here".to_owned()))
                        .with_reference(Span::new(filename, again, hint));
                    diags.push(d);
                    proof { found = found.push((i as int, false)); }
                }
            }
            proof {
                assert(found =~= global_findings(s, *tree, i as int));
                let gb = global_findings_before(s, *tree, i as int);
                assert(global_findings_before(s, *tree, i + 1) == gb + found);
                assert forall|k: int| 0 <= k < diags.len() implies reports_global(#[trigger] diags[k], s, *tree,
                    global_findings_before(s, *tree, i + 1)[k]) by {
                    if k < before.len() {
                        assert(diags[k] == before[k]);
                    }
                }
            }
            i = i + 1;
        }
        diags
    }
}

} // verus!
