//! Rule I:B: variable names must be descriptive and meaningful. Whether a name is
//! meaningful is a judgement that no syntax check makes, so this rule reports nothing.

use vstd::prelude::*;
use crate::diagnostic::{Diagnostic, RuleDescription};
use crate::source::SourceInfo;

verus! {

/// Rule I:B.
pub struct Rule01b {}

impl Rule01b {
    /// The rule's description.
    pub open spec fn description() -> RuleDescription {
        RuleDescription {
            group_number: 1,
            letter: 'B',
            code: "I:B",
            name: "MeaningfulNames",
            description: "variable names must be descriptive and meaningful",
        }
    }

    /// Returns the rule's description.
    pub fn describe(&self) -> (r: RuleDescription)
        ensures
            r == Self::description(),
    {
        RuleDescription {
            group_number: 1,
            letter: 'B',
            code: "I:B",
            name: "MeaningfulNames",
            description: "variable names must be descriptive and meaningful",
        }
    }

    /// What `check` returns on `source`.
    pub open spec fn checked(&self, source: SourceInfo, r: Seq<Diagnostic>) -> bool {
        &&& r.len() == 0
    }

    /// Reports nothing.
    pub fn check(&self, source: &SourceInfo) -> (r: Vec<Diagnostic>)
        ensures
            self.checked(*source, r@),
            r.len() == 0,
    {
        Vec::new()
    }
}

} // verus!
