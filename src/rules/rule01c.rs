//! Rule I:C: constants are named in upper snake case and numeric values are
//! parenthesized.

use vstd::prelude::*;
use crate::diagnostic::{Diagnostic, RuleDescription, SourceRange, Span};
use crate::rules::rule12a::node_text_spec;
use crate::metadata::{uppercase_chars, uppercase_of};
use crate::source::{push_str, SourceInfo};
use crate::syntax::SyntaxTree;

verus! {

/// Whether `s` holds an ASCII lowercase letter.
pub open spec fn has_lowercase(s: Seq<char>) -> bool {
    exists|i: int| 0 <= i < s.len() && 'a' <= #[trigger] s[i] && s[i] <= 'z'
}

/// Whether `s` is one or more ASCII digits.
pub open spec fn is_integer_literal(s: Seq<char>) -> bool {
    s.len() > 0 && forall|i: int| 0 <= i < s.len() ==> '0' <= #[trigger] s[i] && s[i] <= '9'
}

/// The upper-case form of `s`: each character's Unicode upper-case mapping, in order.
pub open spec fn upper_of(s: Seq<char>) -> Seq<char>
    decreases s.len(),
{
    if s.len() == 0 {
        Seq::empty()
    } else {
        upper_of(s.drop_last()) + uppercase_of(s.last())
    }
}

/// The upper-case form of a name.
pub fn upper_name(s: &str) -> (r: String)
    ensures
        r@ == upper_of(s@),
{
    let cs = crate::text::chars_of(s);
    let mut out = String::new();
    let mut k: usize = 0;
    assert(cs@.take(0) =~= Seq::<char>::empty());
    while k < cs.len()
        invariant
            k <= cs.len(),
            cs@ == s@,
            out@ == upper_of(cs@.take(k as int)),
        decreases cs.len() - k,
    {
        let up = uppercase_chars(cs[k]);
        push_str(&mut out, up.as_str());
        assert(cs@.take(k + 1).drop_last() =~= cs@.take(k as int));
        k = k + 1;
    }
    assert(cs@.take(cs.len() as int) =~= cs@);
    out
}

/// Whether `s` holds an ASCII lowercase letter.
pub fn contains_lowercase(s: &str) -> (r: bool)
    ensures
        r == has_lowercase(s@),
{
    let cs = crate::text::chars_of(s);
    let mut k: usize = 0;
    while k < cs.len()
        invariant
            k <= cs.len(),
            cs@ == s@,
            forall|i: int| 0 <= i < k ==> !('a' <= #[trigger] cs@[i] && cs@[i] <= 'z'),
        decreases cs.len() - k,
    {
        if 'a' <= cs[k] && cs[k] <= 'z' {
            return true;
        }
        k = k + 1;
    }
    false
}

/// Whether `s` is one or more ASCII digits.
pub fn is_unwrapped_number(s: &str) -> (r: bool)
    ensures
        r == is_integer_literal(s@),
{
    let cs = crate::text::chars_of(s);
    if cs.len() == 0 {
        return false;
    }
    let mut k: usize = 0;
    while k < cs.len()
        invariant
            k <= cs.len(),
            cs@ == s@,
            forall|i: int| 0 <= i < k ==> '0' <= #[trigger] cs@[i] && cs@[i] <= '9',
        decreases cs.len() - k,
    {
        if !('0' <= cs[k] && cs[k] <= '9') {
            return false;
        }
        k = k + 1;
    }
    true
}

/// The name of `#define` node `i`, if it is an identifier.
pub open spec fn define_name(t: SyntaxTree, i: int) -> Option<int> {
    match t.child_by_field_spec(i, "name"@) {
        Some(n) => if t.kind_is_spec(n, "identifier"@) { Some(n) } else { None },
        None => None,
    }
}

/// The value of `#define` node `i`, if it is a plain argument.
pub open spec fn define_value(t: SyntaxTree, i: int) -> Option<int> {
    match t.child_by_field_spec(i, "value"@) {
        Some(v) => if t.kind_is_spec(v, "preproc_arg"@) { Some(v) } else { None },
        None => None,
    }
}

/// What is wrong with a named constant.
pub enum ConstantProblem {
    /// The name is one character long.
    ShortName,
    /// The name holds a lowercase letter.
    LowercaseName,
    /// The value is a bare integer literal.
    UnwrappedNumber,
}

/// The problems that node `i` shows, each with the node it is reported on, in the
/// order they are reported.
pub open spec fn constant_findings(s: Seq<char>, t: SyntaxTree, i: int) -> Seq<(int, ConstantProblem)> {
    if !t.kind_is_spec(i, "preproc_def"@) {
        Seq::empty()
    } else {
        let by_name = match define_name(t, i) {
            Some(n) => {
                let text = node_text_spec(s, t, n);
                (if text.len() == 1 { seq![(n, ConstantProblem::ShortName)] } else { Seq::empty() })
                    + (if has_lowercase(text) { seq![(n, ConstantProblem::LowercaseName)] } else { Seq::empty() })
            },
            None => Seq::empty(),
        };
        let by_value = match define_value(t, i) {
            Some(v) => if is_integer_literal(node_text_spec(s, t, v)) {
                seq![(v, ConstantProblem::UnwrappedNumber)]
            } else {
                Seq::empty()
            },
            None => Seq::empty(),
        };
        by_name + by_value
    }
}

/// The problems of the nodes before `n`, in order.
pub open spec fn findings_before(s: Seq<char>, t: SyntaxTree, n: int) -> Seq<(int, ConstantProblem)>
    decreases n,
{
    if n <= 0 {
        Seq::empty()
    } else {
        findings_before(s, t, n - 1) + constant_findings(s, t, n - 1)
    }
}

/// Whether `d` reports problem `f` of the constants of the tree `t` over the text `s`.
pub open spec fn reports_finding(d: Diagnostic, s: Seq<char>, t: SyntaxTree, f: (int, ConstantProblem)) -> bool {
    let text = node_text_spec(s, t, f.0);
    &&& d.rule == Rule01c::description()
    &&& d.ranges_consistent_with(s)
    &&& d.violations.len() == 1
    &&& d.violations[0].range.bytes.start == t.nodes[f.0].start
    &&& d.violations[0].range.bytes.end == t.nodes[f.0].end
    &&& d.notes.len() == 0
    &&& d.violations[0].label@ == (match f.1 {
        ConstantProblem::UnwrappedNumber => "Value defined here"@,
        _ => "Constant defined here"@,
    })
    &&& (d.suggestion is None ==> d.references.len() == 0)
    &&& (d.suggestion matches Some(fix) ==> d.references.len() == 1
        && d.references[0].range.bytes.start == t.nodes[f.0].start
        && d.references[0].range.bytes.end == t.nodes[f.0].end
        && d.references[0].label@ == "Perhaps you meant `"@ + fix@ + "'"@)
    &&& match f.1 {
        ConstantProblem::ShortName => d.message@ == "Constant name must contain at least 2 characters"@
            && d.suggestion is None,
        ConstantProblem::LowercaseName => d.message@ == "Constant name must use upper snake case"@
            && (d.suggestion matches Some(fix) && fix@ == upper_of(text)),
        ConstantProblem::UnwrappedNumber => d.message@ == "Numeric constant value must be wrapped in parentheses"@
            && (d.suggestion matches Some(fix) && fix@ == "("@ + text + ")"@),
    }
}

/// Rule I:C.
pub struct Rule01c {}

impl Rule01c {
    /// The rule's description.
    pub open spec fn description() -> RuleDescription {
        RuleDescription {
            group_number: 1,
            letter: 'C',
            code: "I:C",
            name: "NamedConstants",
            description: "constants must be named in upper snake case and wrapped in parentheses",
        }
    }

    /// Returns the rule's description.
    pub fn describe(&self) -> (r: RuleDescription)
        ensures
            r == Self::description(),
    {
        RuleDescription {
            group_number: 1,
            letter: 'C',
            code: "I:C",
            name: "NamedConstants",
            description: "constants must be named in upper snake case and wrapped in parentheses",
        }
    }

    /// A diagnostic over node `n` with the given message and label, and the suggested
    /// replacement `fix` if any.
    fn report(&self, source: &SourceInfo, n: usize, message: &str, label: &str, fix: Option<String>) -> (r: Diagnostic)
        requires
            source.wf(),
            n < source.tree.nodes.len(),
        ensures
            r.rule == Self::description(),
            r.ranges_consistent_with(source.text()),
            r.violations.len() == 1,
            r.violations[0].range.bytes.start == source.tree.nodes[n as int].start,
            r.violations[0].range.bytes.end == source.tree.nodes[n as int].end,
            r.message@ == message@,
            r.suggestion == fix,
            r.notes.len() == 0,
            r.violations[0].label@ == label@,
            fix is None ==> r.references.len() == 0,
            fix matches Some(f) ==> r.references.len() == 1
                && r.references[0].range.bytes.start == source.tree.nodes[n as int].start
                && r.references[0].range.bytes.end == source.tree.nodes[n as int].end
                && r.references[0].label@ == "Perhaps you meant `"@ + f@ + "'"@,
    {
        let tree = &source.tree;
        let filename = source.filename.as_str();
        assert(tree.node_wf(n as int));
        let range = SourceRange::from_byte_range(tree.nodes[n].start..tree.nodes[n].end, source);
        let d = Diagnostic::new(self.describe(), message.to_owned())
            .with_violation(Span::new(filename, range, label.to_owned()));
        match fix {
            Some(f) => {
                let mut hint = "Perhaps you meant `".to_owned();
                push_str(&mut hint, f.as_str());
                push_str(&mut hint, "'");
                let again = SourceRange::from_byte_range(tree.nodes[n].start..tree.nodes[n].end, source);
                d.with_reference(Span::new(filename, again, hint)).with_suggestion(f)
            },
            None => d,
        }
    }

    /// The diagnostics for `#define` node `i`, appended to `diags`.
    fn check_define(&self, source: &SourceInfo, i: usize, diags: &mut Vec<Diagnostic>)
        requires
            source.wf(),
            i < source.tree.nodes.len(),
        ensures
            final(diags).len() == old(diags).len() + constant_findings(source.text(), source.tree, i as int).len(),
            forall|k: int| 0 <= k < old(diags).len() ==> final(diags)[k] == old(diags)[k],
            forall|k: int| 0 <= k < constant_findings(source.text(), source.tree, i as int).len() ==> reports_finding(
                #[trigger] final(diags)[old(diags).len() + k], source.text(), source.tree,
                constant_findings(source.text(), source.tree, i as int)[k]),
    {
        let tree = &source.tree;
        let ghost s = source.text();
        let ghost start = diags@;
        if !tree.kind_is(i, "preproc_def") {
            return;
        }
        let ghost mut found: Seq<(int, ConstantProblem)> = Seq::empty();
        let name = match tree.child_by_field(i, "name") {
            Some(n) => if tree.kind_is(n, "identifier") { Some(n) } else { None },
            None => None,
        };
        match name {
            Some(name) => {
                let text = source.node_text(name);
                let n_chars = crate::text::chars_of(text.as_str()).len();
                if n_chars == 1 {
                    diags.push(self.report(source, name, "Constant name must contain at least 2 characters", "Constant defined here", None));
                    proof { found = found.push((name as int, ConstantProblem::ShortName)); }
                }
                if contains_lowercase(text.as_str()) {
                    let fix = upper_name(text.as_str());
                    diags.push(self.report(source, name, "Constant name must use upper snake case", "Constant defined here", Some(fix)));
                    proof { found = found.push((name as int, ConstantProblem::LowercaseName)); }
                }
            },
            None => {},
        }
        assert(diags.len() == start.len() + found.len());
        let value = match tree.child_by_field(i, "value") {
            Some(v) => if tree.kind_is(v, "preproc_arg") { Some(v) } else { None },
            None => None,
        };
        match value {
            Some(value) => {
                let text = source.node_text(value);
                if is_unwrapped_number(text.as_str()) {
                    let mut fix = "(".to_owned();
                    push_str(&mut fix, text.as_str());
                    push_str(&mut fix, ")");
                    diags.push(self.report(source, value, "Numeric constant value must be wrapped in parentheses", "Value defined here", Some(fix)));
                    proof { found = found.push((value as int, ConstantProblem::UnwrappedNumber)); }
                }
            },
            None => {},
        }
        assert(found =~= constant_findings(s, *tree, i as int));
    }

    /// What `check` returns on `source`.
    pub open spec fn checked(&self, source: SourceInfo, r: Seq<Diagnostic>) -> bool {
        &&& r.len() == findings_before(source.text(), source.tree, source.tree.nodes.len() as int).len()
        &&& forall|k: int| 0 <= k < r.len() ==> reports_finding(#[trigger] r[k], source.text(), source.tree,
            findings_before(source.text(), source.tree, source.tree.nodes.len() as int)[k])
    }

    /// For every `#define` with a name and a value, in document order: a diagnostic if
    /// the name is one character long, one (suggesting the upper-case name) if it holds a
    /// lowercase letter, and one (suggesting `(value)`) if the value is a bare integer
    /// literal.
    pub fn check(&self, source: &SourceInfo) -> (r: Vec<Diagnostic>)
        requires
            source.wf(),
        ensures
            self.checked(*source, r@),
            r.len() == findings_before(source.text(), source.tree, source.tree.nodes.len() as int).len(),
            forall|k: int| 0 <= k < r.len() ==> reports_finding(#[trigger] r[k], source.text(), source.tree,
                findings_before(source.text(), source.tree, source.tree.nodes.len() as int)[k]),
    {
        let tree = &source.tree;
        let mut diags: Vec<Diagnostic> = Vec::new();
        let mut i: usize = 0;
        while i < tree.nodes.len()
            invariant
                source.wf(),
                tree == &source.tree,
                i <= tree.nodes.len(),
                diags.len() == findings_before(source.text(), *tree, i as int).len(),
                forall|k: int| 0 <= k < diags.len() ==> reports_finding(#[trigger] diags[k], source.text(), *tree,
                    findings_before(source.text(), *tree, i as int)[k]),
            decreases tree.nodes.len() - i,
        {
            let ghost before = diags@;
            self.check_define(source, i, &mut diags);
            proof {
                let fb = findings_before(source.text(), *tree, i as int);
                let cf = constant_findings(source.text(), *tree, i as int);
                assert(findings_before(source.text(), *tree, i + 1) == fb + cf);
                assert forall|k: int| 0 <= k < diags.len() implies reports_finding(#[trigger] diags[k], source.text(), *tree,
                    findings_before(source.text(), *tree, i + 1)[k]) by {
                    if k < before.len() {
                        assert(diags[k] == before[k]);
                    } else {
                        assert(diags[before.len() + (k - before.len())] == diags[k]);
                    }
                }
            }
            i = i + 1;
        }
        diags
    }
}

} // verus!
