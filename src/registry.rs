//! The rule registry and the driver that runs the rules over one source file.

use vstd::prelude::*;
use crate::diagnostic::{Diagnostic, RuleDescription, SourceRange};
use crate::rules::rule01b::Rule01b;
use crate::rules::rule1a::Rule1a;
use crate::rules::rule1d::Rule1d;
use crate::rules::rule03a::Rule03a;
use crate::rules::rule3b::Rule3b;
use crate::rules::rule3c::Rule3c;
use crate::rules::rule01c::Rule01c;
use crate::rules::rule02a::Rule02a;
use crate::rules::rule02b::Rule02b;
use crate::rules::rule03e::Rule03e;
use crate::rules::rule11a::Rule11a;
use crate::rules::rule11b::Rule11b;
use crate::rules::rule11e::Rule11e;
use crate::rules::rule12a::Rule12a;
use crate::rules::rule3d::Rule3d;
use crate::rules::rule3f::Rule3f;
use crate::source::SourceInfo;

verus! {

/// One rule of the catalog.
pub enum LintRule {
    LowerSnakeCase(Rule1a),
    MeaningfulNames(Rule01b),
    NamedConstants(Rule01c),
    GlobalVariables(Rule1d),
    LineLength(Rule02a),
    FunctionLength(Rule02b),
    FlowControlSpacing(Rule03a),
    OperatorSpacing(Rule3b),
    DelimiterSpacing(Rule3c),
    DefinePlacement(Rule3d),
    TrailingWhitespace(Rule03e),
    FunctionParenthesis(Rule3f),
    NoTabs(Rule11a),
    NoCrlf(Rule11b),
    NoGoto(Rule11e),
    MultipleDefinitions(Rule12a),
}

impl LintRule {
    /// The description of the rule.
    pub open spec fn description(&self) -> RuleDescription {
        match self {
            LintRule::MeaningfulNames(_) => Rule01b::description(),
            LintRule::DelimiterSpacing(_) => Rule3c::description(),
            LintRule::OperatorSpacing(_) => Rule3b::description(),
            LintRule::FlowControlSpacing(_) => Rule03a::description(),
            LintRule::GlobalVariables(_) => Rule1d::description(),
            LintRule::LowerSnakeCase(_) => Rule1a::description(),
            LintRule::NamedConstants(_) => Rule01c::description(),
            LintRule::LineLength(_) => Rule02a::description(),
            LintRule::FunctionLength(_) => Rule02b::description(),
            LintRule::DefinePlacement(_) => Rule3d::description(),
            LintRule::TrailingWhitespace(_) => Rule03e::description(),
            LintRule::FunctionParenthesis(_) => Rule3f::description(),
            LintRule::NoTabs(_) => Rule11a::description(),
            LintRule::NoCrlf(_) => Rule11b::description(),
            LintRule::NoGoto(_) => Rule11e::description(),
            LintRule::MultipleDefinitions(_) => Rule12a::description(),
        }
    }

    /// What the rule's `check` returns on `source`.
    pub open spec fn checked(&self, source: SourceInfo, r: Seq<Diagnostic>) -> bool {
        match self {
            LintRule::LowerSnakeCase(x) => x.checked(source, r),
            LintRule::MeaningfulNames(x) => x.checked(source, r),
            LintRule::NamedConstants(x) => x.checked(source, r),
            LintRule::GlobalVariables(x) => x.checked(source, r),
            LintRule::LineLength(x) => x.checked(source, r),
            LintRule::FunctionLength(x) => x.checked(source, r),
            LintRule::FlowControlSpacing(x) => x.checked(source, r),
            LintRule::OperatorSpacing(x) => x.checked(source, r),
            LintRule::DelimiterSpacing(x) => x.checked(source, r),
            LintRule::DefinePlacement(x) => x.checked(source, r),
            LintRule::TrailingWhitespace(x) => x.checked(source, r),
            LintRule::FunctionParenthesis(x) => x.checked(source, r),
            LintRule::NoTabs(x) => x.checked(source, r),
            LintRule::NoCrlf(x) => x.checked(source, r),
            LintRule::NoGoto(x) => x.checked(source, r),
            LintRule::MultipleDefinitions(x) => x.checked(source, r),
        }
    }

    /// Returns the rule's description.
    pub fn describe(&self) -> (r: RuleDescription)
        ensures
            r == self.description(),
    {
        match self {
            LintRule::MeaningfulNames(r) => r.describe(),
            LintRule::DelimiterSpacing(r) => r.describe(),
            LintRule::OperatorSpacing(r) => r.describe(),
            LintRule::FlowControlSpacing(r) => r.describe(),
            LintRule::GlobalVariables(r) => r.describe(),
            LintRule::LowerSnakeCase(r) => r.describe(),
            LintRule::NamedConstants(r) => r.describe(),
            LintRule::LineLength(r) => r.describe(),
            LintRule::FunctionLength(r) => r.describe(),
            LintRule::DefinePlacement(r) => r.describe(),
            LintRule::TrailingWhitespace(r) => r.describe(),
            LintRule::FunctionParenthesis(r) => r.describe(),
            LintRule::NoTabs(r) => r.describe(),
            LintRule::NoCrlf(r) => r.describe(),
            LintRule::NoGoto(r) => r.describe(),
            LintRule::MultipleDefinitions(r) => r.describe(),
        }
    }

    /// Checks a source file for compliance with the rule. Every diagnostic names the
    /// rule and every range in it is consistent with the text.
    pub fn check(&self, source: &SourceInfo) -> (r: Vec<Diagnostic>)
        requires
            source.wf(),
        ensures
            self.checked(*source, r@),
            forall|k: int| 0 <= k < r.len() ==> (#[trigger] r[k]).rule == self.description()
                && r[k].ranges_consistent_with(source.text()),
    {
        match self {
            LintRule::MeaningfulNames(r) => r.check(source),
            LintRule::DelimiterSpacing(r) => r.check(source),
            LintRule::OperatorSpacing(r) => r.check(source),
            LintRule::FlowControlSpacing(r) => r.check(source),
            LintRule::GlobalVariables(r) => r.check(source),
            LintRule::LowerSnakeCase(r) => r.check(source),
            LintRule::NamedConstants(r) => r.check(source),
            LintRule::LineLength(r) => r.check(source),
            LintRule::FunctionLength(r) => r.check(source),
            LintRule::DefinePlacement(r) => r.check(source),
            LintRule::TrailingWhitespace(r) => r.check(source),
            LintRule::FunctionParenthesis(r) => r.check(source),
            LintRule::NoTabs(r) => r.check(source),
            LintRule::NoCrlf(r) => r.check(source),
            LintRule::NoGoto(r) => r.check(source),
            LintRule::MultipleDefinitions(r) => r.check(source),
        }
    }
}

/// Returns every rule of the catalog, ordered by group and letter.
pub fn get_rules() -> (r: Vec<LintRule>)
    ensures
        r.len() == 16,
        r[0] is LowerSnakeCase && r[1] is MeaningfulNames && r[2] is NamedConstants && r[3] is GlobalVariables,
        r[4] is LineLength && r[5] is FunctionLength && r[6] is FlowControlSpacing && r[7] is OperatorSpacing,
        r[8] is DelimiterSpacing && r[9] is DefinePlacement && r[10] is TrailingWhitespace,
        r[11] is FunctionParenthesis && r[12] is NoTabs && r[13] is NoCrlf && r[14] is NoGoto,
        r[15] is MultipleDefinitions,
        r[12] matches LintRule::NoTabs(t) && t.max_diagnostics == Some(3usize),
        r[13] matches LintRule::NoCrlf(t) && t.max_diagnostics is None,
{
    let mut rules: Vec<LintRule> = Vec::new();
    rules.push(LintRule::LowerSnakeCase(Rule1a {}));
    rules.push(LintRule::MeaningfulNames(Rule01b {}));
    rules.push(LintRule::NamedConstants(Rule01c {}));
    rules.push(LintRule::GlobalVariables(Rule1d {}));
    rules.push(LintRule::LineLength(Rule02a {}));
    rules.push(LintRule::FunctionLength(Rule02b {}));
    rules.push(LintRule::FlowControlSpacing(Rule03a {}));
    rules.push(LintRule::OperatorSpacing(Rule3b {}));
    rules.push(LintRule::DelimiterSpacing(Rule3c {}));
    rules.push(LintRule::DefinePlacement(Rule3d {}));
    rules.push(LintRule::TrailingWhitespace(Rule03e {}));
    rules.push(LintRule::FunctionParenthesis(Rule3f {}));
    rules.push(LintRule::NoTabs(Rule11a::new(Some(3))));
    rules.push(LintRule::NoCrlf(Rule11b::new(None)));
    rules.push(LintRule::NoGoto(Rule11e {}));
    rules.push(LintRule::MultipleDefinitions(Rule12a {}));
    rules
}

/// Why a file was not linted.
#[derive(Debug, PartialEq, Eq, Clone, Copy)]
pub enum LintError {
    /// The syntax tree holds an error or a missing node.
    SyntaxError,
}

/// Whether every diagnostic of `ds` comes from one of `rules` and has only ranges
/// consistent with the text `s`.
pub open spec fn diagnostics_sound(ds: Seq<Diagnostic>, rules: Seq<LintRule>, s: Seq<char>) -> bool {
    forall|k: int| 0 <= k < ds.len() ==> (#[trigger] ds[k]).ranges_consistent_with(s)
        && exists|j: int| 0 <= j < rules.len() && ds[k].rule == (#[trigger] rules[j]).description()
}

/// The sequences of `parts` one after the other.
pub open spec fn concat_all(parts: Seq<Seq<Diagnostic>>) -> Seq<Diagnostic>
    decreases parts.len(),
{
    if parts.len() == 0 {
        Seq::empty()
    } else {
        concat_all(parts.drop_last()) + parts.last()
    }
}

/// Runs `rules` in order over `source` and concatenates their diagnostics; a file whose
/// tree holds a syntax error or a missing node is refused, and no rule runs on it.
pub fn lint(source: &SourceInfo, rules: &Vec<LintRule>) -> (r: Result<Vec<Diagnostic>, LintError>)
    requires
        source.wf(),
    ensures
        r is Err <==> source.tree.has_error_spec(),
        r matches Ok(ds) ==> diagnostics_sound(ds@, rules@, source.text()),
        r matches Ok(ds) ==> exists|parts: Seq<Seq<Diagnostic>>| {
            &&& parts.len() == rules.len()
            &&& ds@ == concat_all(parts)
            &&& forall|j: int, k: int| 0 <= j < parts.len() && 0 <= k < parts[j].len()
                ==> (#[trigger] parts[j][k]).rule == rules[j].description()
            &&& forall|j: int| 0 <= j < parts.len() ==> rules[j].checked(*source, #[trigger] parts[j])
        },
{
    if source.tree.has_error() {
        return Err(LintError::SyntaxError);
    }
    let mut all: Vec<Diagnostic> = Vec::new();
    let ghost mut parts: Seq<Seq<Diagnostic>> = Seq::empty();
    let mut j: usize = 0;
    while j < rules.len()
        invariant
            source.wf(),
            j <= rules.len(),
            diagnostics_sound(all@, rules@, source.text()),
            parts.len() == j,
            all@ == concat_all(parts),
            forall|a: int, k: int| 0 <= a < parts.len() && 0 <= k < parts[a].len()
                ==> (#[trigger] parts[a][k]).rule == rules@[a].description(),
            forall|a: int| 0 <= a < parts.len() ==> rules@[a].checked(*source, #[trigger] parts[a]),
        decreases rules.len() - j,
    {
        let mut found = rules[j].check(source);
        let ghost before = all@;
        let ghost got = found@;
        all.append(&mut found);
        proof {
            let old_parts = parts;
            parts = parts.push(got);
            assert(parts.drop_last() =~= old_parts);
            assert forall|a: int, k: int| 0 <= a < parts.len() && 0 <= k < parts[a].len()
                implies (#[trigger] parts[a][k]).rule == rules@[a].description() by {
                if a < old_parts.len() {
                    assert(parts[a] == old_parts[a]);
                } else {
                    assert(parts[a] == got);
                }
            }
            assert forall|a: int| 0 <= a < parts.len() implies rules@[a].checked(*source, #[trigger] parts[a]) by {
                if a < old_parts.len() {
                    assert(parts[a] == old_parts[a]);
                }
            }
        }
        proof {
            assert(all@ == before + got);
            assert forall|k: int| 0 <= k < all.len() implies (#[trigger] all@[k]).ranges_consistent_with(source.text())
                && exists|i: int| 0 <= i < rules.len() && all@[k].rule == (#[trigger] rules@[i]).description() by {
                if k >= before.len() {
                    assert(all@[k] == got[k - before.len()]);
                    assert(rules@[j as int].description() == all@[k].rule);
                } else {
                    assert(all@[k] == before[k]);
                }
            }
        }
        j = j + 1;
    }
    Ok(all)
}

} // verus!

verus! {

/// Whether two diagnostics say the same: rule, message, spans with their ranges and
/// labels, notes and suggestion.
pub open spec fn same_report(a: Diagnostic, b: Diagnostic) -> bool {
    &&& a.rule == b.rule
    &&& a.message@ == b.message@
    &&& a.violations.len() == b.violations.len()
    &&& forall|m: int| 0 <= m < a.violations.len() ==> (#[trigger] a.violations[m]).range == b.violations[m].range
        && a.violations[m].label@ == b.violations[m].label@
    &&& a.references.len() == b.references.len()
    &&& forall|m: int| 0 <= m < a.references.len() ==> (#[trigger] a.references[m]).range == b.references[m].range
        && a.references[m].label@ == b.references[m].label@
    &&& a.notes.len() == b.notes.len()
    &&& forall|m: int| 0 <= m < a.notes.len() ==> (#[trigger] a.notes[m])@ == b.notes[m]@
    &&& (a.suggestion is None <==> b.suggestion is None)
    &&& (a.suggestion matches Some(x) ==> b.suggestion matches Some(y) && x@ == y@)
}

/// Ranges consistent with one text that cover the same bytes are the same range.
pub proof fn lemma_same_range(a: SourceRange, b: SourceRange, s: Seq<char>)
    requires
        a.consistent_with(s),
        b.consistent_with(s),
        a.bytes.start == b.bytes.start,
        a.bytes.end == b.bytes.end,
    ensures
        a == b,
{
    assert(a.start_pos == b.start_pos);
    assert(a.end_pos == b.end_pos);
    assert(a.bytes == b.bytes);
}

/// Two diagnostics consistent with one text, with spans over the same bytes, the same
/// labels and the same rule, message, notes and suggestion, say the same.
pub proof fn lemma_same_report(a: Diagnostic, b: Diagnostic, s: Seq<char>)
    requires
        a.ranges_consistent_with(s),
        b.ranges_consistent_with(s),
        a.rule == b.rule,
        a.message@ == b.message@,
        a.violations.len() == b.violations.len(),
        forall|m: int| 0 <= m < a.violations.len() ==> (#[trigger] a.violations[m]).range.bytes.start == b.violations[m].range.bytes.start
            && a.violations[m].range.bytes.end == b.violations[m].range.bytes.end && a.violations[m].label@ == b.violations[m].label@,
        a.references.len() == b.references.len(),
        forall|m: int| 0 <= m < a.references.len() ==> (#[trigger] a.references[m]).range.bytes.start == b.references[m].range.bytes.start
            && a.references[m].range.bytes.end == b.references[m].range.bytes.end && a.references[m].label@ == b.references[m].label@,
        a.notes.len() == b.notes.len(),
        forall|m: int| 0 <= m < a.notes.len() ==> (#[trigger] a.notes[m])@ == b.notes[m]@,
        a.suggestion is None <==> b.suggestion is None,
        a.suggestion matches Some(x) ==> b.suggestion matches Some(y) && x@ == y@,
    ensures
        same_report(a, b),
{
    assert forall|m: int| 0 <= m < a.violations.len() implies (#[trigger] a.violations[m]).range == b.violations[m].range by {
        lemma_same_range(a.violations[m].range, b.violations[m].range, s);
    }
    assert forall|m: int| 0 <= m < a.references.len() implies (#[trigger] a.references[m]).range == b.references[m].range by {
        lemma_same_range(a.references[m].range, b.references[m].range, s);
    }
}

/// Running a rule twice on one file gives the same diagnostics in the same order.
#[verifier::rlimit(100)]
pub proof fn lemma_check_repeatable(rule: LintRule, source: SourceInfo, r1: Seq<Diagnostic>, r2: Seq<Diagnostic>)
    requires
        source.wf(),
        rule.checked(source, r1),
        rule.checked(source, r2),
    ensures
        r1.len() == r2.len(),
        forall|k: int| 0 <= k < r1.len() ==> same_report(#[trigger] r1[k], r2[k]),
{
    match rule {
        LintRule::LineLength(_) => {
            let s = source.text();
            let lines = source.index.lines@;
            let long = crate::rules::rule02a::long_lines(s, lines);
            assert forall|k: int| 0 <= k < r1.len() implies same_report(#[trigger] r1[k], r2[k]) by {
                if k < long.len() {
                    lemma_same_report(r1[k], r2[k], s);
                } else {
                    assert(r1[long.len() + (k - long.len())] == r1[k] && r2[long.len() + (k - long.len())] == r2[k]);
                    lemma_same_report(r1[k], r2[k], s);
                }
            }
        },
        LintRule::DefinePlacement(_) => {
            let t = source.tree;
            let s = source.text();
            let top = crate::rules::rule3d::define_groups(t, true);
            let late = crate::rules::rule3d::misplaced_groups(t);
            let grouped = crate::rules::rule3d::top_grouping_count(t);
            let sf = crate::rules::rule3d::split_functions(t);
            let b = crate::rules::rule3d::blank_findings(s, source.index.lines@, crate::rules::rule3d::define_groups(t, false),
                crate::rules::rule3d::define_groups(t, false).len() as int);
            assert forall|k: int| 0 <= k < r1.len() implies same_report(#[trigger] r1[k], r2[k]) by {
                if k < late.len() {
                    lemma_same_report(r1[k], r2[k], s);
                } else if k < late.len() + grouped {
                    assert(k == late.len());
                    lemma_same_report(r1[k], r2[k], s);
                } else if k < late.len() + grouped + sf.len() {
                    let j = k - late.len() - grouped;
                    assert(r1[late.len() + grouped + j] == r1[k] && r2[late.len() + grouped + j] == r2[k]);
                    assert(0 <= j < sf.len());
                    lemma_same_report(r1[k], r2[k], s);
                } else {
                    let j = k - (r1.len() - b.len());
                    assert(r1[r1.len() - b.len() + j] == r1[k] && r2[r2.len() - b.len() + j] == r2[k]);
                    lemma_same_report(r1[k], r2[k], s);
                }
            }
        },
        LintRule::FlowControlSpacing(_) => {
            assert forall|k: int| 0 <= k < r1.len() implies same_report(#[trigger] r1[k], r2[k]) by {
                assert(r1[0 + k] == r1[k] && r2[0 + k] == r2[k]);
                lemma_same_report(r1[k], r2[k], source.text());
            }
        },
        _ => {
            assert forall|k: int| 0 <= k < r1.len() implies same_report(#[trigger] r1[k], r2[k]) by {
                lemma_same_report(r1[k], r2[k], source.text());
            }
        },
    }
}

/// Reordering the rules changes only the order of their blocks: where `rules2` is
/// `rules1` reordered by `perm` and each block is what its rule's check returns, the
/// block of `rules2[j]` says the same as the block of `rules1[perm[j]]`.
pub proof fn lemma_order_independent(
    source: SourceInfo,
    rules1: Seq<LintRule>,
    rules2: Seq<LintRule>,
    perm: Seq<int>,
    parts1: Seq<Seq<Diagnostic>>,
    parts2: Seq<Seq<Diagnostic>>,
)
    requires
        source.wf(),
        rules1.len() == rules2.len(),
        perm.len() == rules2.len(),
        parts1.len() == rules1.len(),
        parts2.len() == rules2.len(),
        forall|j: int| 0 <= j < perm.len() ==> 0 <= #[trigger] perm[j] < rules1.len() && rules2[j] == rules1[perm[j]],
        forall|j: int| 0 <= j < parts1.len() ==> rules1[j].checked(source, #[trigger] parts1[j]),
        forall|j: int| 0 <= j < parts2.len() ==> rules2[j].checked(source, #[trigger] parts2[j]),
    ensures
        forall|j: int| 0 <= j < parts2.len() ==> (#[trigger] parts2[j]).len() == parts1[perm[j]].len()
            && forall|k: int| 0 <= k < parts2[j].len() ==> same_report(#[trigger] parts2[j][k], parts1[perm[j]][k]),
{
    assert forall|j: int| 0 <= j < parts2.len() implies (#[trigger] parts2[j]).len() == parts1[perm[j]].len()
        && forall|k: int| 0 <= k < parts2[j].len() ==> same_report(#[trigger] parts2[j][k], parts1[perm[j]][k]) by {
        let i = perm[j];
        assert(rules1[i].checked(source, parts1[i]));
        lemma_check_repeatable(rules2[j], source, parts2[j], parts1[i]);
    }
}

} // verus!
