//! Diagnostics: the rule that was violated, a message, labeled source ranges and an
//! optional suggested replacement.

use vstd::prelude::*;
use std::ops::Range;
use crate::lines::position_at;
use crate::source::SourceInfo;

verus! {

/// Describes a linter rule.
#[derive(Clone, Copy, Debug, PartialEq, Eq)]
pub struct RuleDescription {
    /// Number of the group this rule belongs to.
    pub group_number: u8,
    /// Letter of the rule within its group.
    pub letter: char,
    /// Rule code (e.g. `"III:F"`).
    pub code: &'static str,
    /// Name of the rule in Pascal case (e.g. `"MeaningfulNames"`).
    pub name: &'static str,
    /// Description of the rule, ideally in the form "X must (be) Y".
    pub description: &'static str,
}

impl RuleDescription {
    /// Orders rule descriptions by group number, then by letter.
    pub fn cmp(&self, other: &Self) -> (r: core::cmp::Ordering)
        ensures
            r == (if (self.group_number, self.letter) == (other.group_number, other.letter) {
                core::cmp::Ordering::Equal
            } else if self.group_number < other.group_number || (self.group_number
                == other.group_number && self.letter < other.letter) {
                core::cmp::Ordering::Less
            } else {
                core::cmp::Ordering::Greater
            }),
    {
        if self.group_number < other.group_number {
            core::cmp::Ordering::Less
        } else if self.group_number > other.group_number {
            core::cmp::Ordering::Greater
        } else if self.letter < other.letter {
            core::cmp::Ordering::Less
        } else if self.letter > other.letter {
            core::cmp::Ordering::Greater
        } else {
            core::cmp::Ordering::Equal
        }
    }
}

/// A range of source code, as both a byte range and line/column positions.
#[derive(Debug, PartialEq, Eq)]
pub struct SourceRange {
    /// Range of bytes in the source code.
    pub bytes: Range<usize>,
    /// Start position (inclusive) as 0-indexed (row, display column).
    pub start_pos: (usize, usize),
    /// End position (exclusive) as 0-indexed (row, display column).
    pub end_pos: (usize, usize),
}

/// Whether `p` is the (row, column) pair `q`.
pub open spec fn same_pos(p: (usize, usize), q: (nat, nat)) -> bool {
    p.0 == q.0 && p.1 == q.1
}

impl SourceRange {
    /// The byte interval lies within the text, is not reversed, and the positions are
    /// those of its two ends.
    pub open spec fn consistent_with(&self, s: Seq<char>) -> bool {
        &&& self.bytes.start <= self.bytes.end
        &&& self.bytes.end <= vstd::utf8::encode_utf8(s).len()
        &&& same_pos(self.start_pos, position_at(s, self.bytes.start as int))
        &&& same_pos(self.end_pos, position_at(s, self.bytes.end as int))
    }

    /// Creates a `SourceRange` from a byte range, taking the positions from the line
    /// index of `source`.
    pub fn from_byte_range(bytes: Range<usize>, source: &SourceInfo) -> (r: Self)
        requires
            source.wf(),
            bytes.start <= bytes.end <= source.byte_len(),
        ensures
            r.bytes == bytes,
            r.consistent_with(source.text()),
            r.start_pos.0 <= source.text().len(),
            r.end_pos.0 <= source.text().len(),
            r.start_pos.0 < r.end_pos.0 || (r.start_pos.0 == r.end_pos.0 && r.start_pos.1 <= r.end_pos.1),
            bytes.end == source.byte_len() && source.text().len() > 0 && source.text().last() == '\n'
                ==> r.end_pos == (source.index.lines.len(), 0usize),
    {
        proof {
            crate::lines::lemma_positions_ordered(source.index, bytes.start as int, bytes.end as int);
            if bytes.end == source.byte_len() && source.text().len() > 0 && source.text().last() == '\n' {
                crate::lines::lemma_end_after_newline(source.index);
            }
        }
        let start_pos = source.index.position(bytes.start);
        let end_pos = source.index.position(bytes.end);
        SourceRange { bytes, start_pos, end_pos }
    }
}

/// A source range annotated with a file name and a label.
#[derive(Debug, PartialEq, Eq)]
pub struct Span {
    /// Name of the source file.
    pub filename: String,
    /// Range of the source code.
    pub range: SourceRange,
    /// Label for the span.
    pub label: String,
}

impl Span {
    /// Creates a new `Span` with the given filename, range, and label.
    pub fn new(filename: &str, range: SourceRange, label: String) -> (r: Self)
        ensures
            r.filename@ == filename@,
            r.range == range,
            r.label == label,
    {
        Span { filename: filename.to_owned(), range, label }
    }
}

/// A rule violation.
#[derive(Debug)]
pub struct Diagnostic {
    /// Description of the rule that was violated.
    pub rule: RuleDescription,
    /// Message describing the violation.
    pub message: String,
    /// Locations of code that violated the rule.
    pub violations: Vec<Span>,
    /// Locations of code that are relevant to the violation but are not violations themselves.
    pub references: Vec<Span>,
    /// Optional suggestion for fixing the violation.
    pub suggestion: Option<String>,
    /// Further remarks.
    pub notes: Vec<String>,
}

impl Diagnostic {
    /// Every span of the diagnostic is consistent with the text `s`.
    pub open spec fn ranges_consistent_with(&self, s: Seq<char>) -> bool {
        &&& forall|k: int| 0 <= k < self.violations.len() ==> (#[trigger] self.violations[k]).range.consistent_with(s)
        &&& forall|k: int| 0 <= k < self.references.len() ==> (#[trigger] self.references[k]).range.consistent_with(s)
    }

    /// Whether the diagnostic has no references, notes or suggestion, and its violations
    /// carry no label.
    pub open spec fn plain(&self) -> bool {
        &&& self.references.len() == 0
        &&& self.notes.len() == 0
        &&& self.suggestion is None
        &&& forall|m: int| 0 <= m < self.violations.len() ==> (#[trigger] self.violations[m]).label@ == Seq::<char>::empty()
    }

    /// Creates a new `Diagnostic` with the given rule and message, and no spans.
    pub fn new(rule: RuleDescription, message: String) -> (r: Self)
        ensures
            r.rule == rule,
            r.message == message,
            r.violations@ == Seq::<Span>::empty(),
            r.references@ == Seq::<Span>::empty(),
            r.suggestion is None,
            r.notes@ == Seq::<String>::empty(),
    {
        Diagnostic { rule, message, violations: Vec::new(), references: Vec::new(), suggestion: None, notes: Vec::new() }
    }

    /// Adds a violation span and returns the modified diagnostic.
    pub fn with_violation(self, span: Span) -> (r: Self)
        ensures
            r.violations@ == self.violations@.push(span),
            r.rule == self.rule && r.message == self.message && r.references == self.references,
            r.suggestion == self.suggestion && r.notes == self.notes,
    {
        let mut d = self;
        d.violations.push(span);
        d
    }

    /// Adds a violation span made by [`Span::new`] from the given parts and returns the
    /// modified diagnostic.
    pub fn with_violation_parts(self, filename: &str, range: SourceRange, label: String) -> (r: Self)
        ensures
            r.violations.len() == self.violations.len() + 1,
            r.violations@.take(self.violations.len() as int) == self.violations@,
            r.violations@.last().filename@ == filename@,
            r.violations@.last().range == range,
            r.violations@.last().label == label,
            r.rule == self.rule && r.message == self.message && r.references == self.references,
            r.suggestion == self.suggestion && r.notes == self.notes,
    {
        let r = self.with_violation(Span::new(filename, range, label));
        assert(r.violations@.take(self.violations.len() as int) =~= self.violations@);
        r
    }

    /// Replaces the violations with the given list and returns the modified diagnostic.
    pub fn with_violations(self, violations: Vec<Span>) -> (r: Self)
        ensures
            r.violations == violations,
            r.rule == self.rule && r.message == self.message && r.references == self.references,
            r.suggestion == self.suggestion && r.notes == self.notes,
    {
        let mut d = self;
        d.violations = violations;
        d
    }

    /// Adds a reference span and returns the modified diagnostic.
    pub fn with_reference(self, span: Span) -> (r: Self)
        ensures
            r.references@ == self.references@.push(span),
            r.rule == self.rule && r.message == self.message && r.violations == self.violations,
            r.suggestion == self.suggestion && r.notes == self.notes,
    {
        let mut d = self;
        d.references.push(span);
        d
    }

    /// Adds a reference span made by [`Span::new`] from the given parts and returns the
    /// modified diagnostic.
    pub fn with_reference_parts(self, filename: &str, range: SourceRange, label: String) -> (r: Self)
        ensures
            r.references.len() == self.references.len() + 1,
            r.references@.take(self.references.len() as int) == self.references@,
            r.references@.last().filename@ == filename@,
            r.references@.last().range == range,
            r.references@.last().label == label,
            r.rule == self.rule && r.message == self.message && r.violations == self.violations,
            r.suggestion == self.suggestion && r.notes == self.notes,
    {
        let r = self.with_reference(Span::new(filename, range, label));
        assert(r.references@.take(self.references.len() as int) =~= self.references@);
        r
    }

    /// Replaces the references with the given list and returns the modified diagnostic.
    pub fn with_references(self, references: Vec<Span>) -> (r: Self)
        ensures
            r.references == references,
            r.rule == self.rule && r.message == self.message && r.violations == self.violations,
            r.suggestion == self.suggestion && r.notes == self.notes,
    {
        let mut d = self;
        d.references = references;
        d
    }

    /// Sets the suggestion and returns the modified diagnostic.
    pub fn with_suggestion(self, suggestion: String) -> (r: Self)
        ensures
            r.suggestion == Some(suggestion),
            r.rule == self.rule && r.message == self.message && r.violations == self.violations,
            r.references == self.references && r.notes == self.notes,
    {
        let mut d = self;
        d.suggestion = Some(suggestion);
        d
    }

    /// Adds a note and returns the modified diagnostic.
    pub fn with_note(self, note: String) -> (r: Self)
        ensures
            r.notes@ == self.notes@.push(note),
            r.rule == self.rule && r.message == self.message && r.violations == self.violations,
            r.references == self.references && r.suggestion == self.suggestion,
    {
        let mut d = self;
        d.notes.push(note);
        d
    }
}

} // verus!
