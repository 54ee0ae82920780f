//! Rule XI:B: do not use DOS-style newlines (`\r\n`).

use vstd::prelude::*;
use crate::diagnostic::{Diagnostic, RuleDescription, Span};
use crate::rules::{char_range, indices_where, is_limited, kept, lemma_indices_where_bounds, limit_diagnostics};
use crate::source::decimal;
use crate::source::SourceInfo;
use crate::text::byte_offset;

verus! {

/// Whether character `k` of `s` is a `\r` that ends a line: the text, split on `\n`,
/// has a segment that ends with it.
pub open spec fn is_dos_cr(s: Seq<char>, k: int) -> bool {
    0 <= k < s.len() && s[k] == '\r' && (k + 1 == s.len() || s[k + 1] == '\n')
}

/// The line-ending `\r` characters of `s`, in order.
pub open spec fn dos_crs(s: Seq<char>) -> Seq<int> {
    indices_where(s.len() as int, |k: int| is_dos_cr(s, k))
}

/// Note on each diagnostic.
pub open spec fn crlf_tip() -> Seq<char> {
    "Use the `fileformat' option in Vim to fix this"@
}

/// Note telling how many more line endings were found past the bound.
pub open spec fn crlf_rest() -> Seq<char> {
    " more lines contain DOS endings, but those warnings are suppressed to avoid noise."@
}

/// Rule XI:B.
pub struct Rule11b {
    pub max_diagnostics: Option<usize>,
}

impl Rule11b {
    /// Constructs the rule. `max_diagnostics` bounds the number of diagnostics: past
    /// it, the last one kept notes how many more were found.
    pub fn new(max_diagnostics: Option<usize>) -> (r: Self)
        ensures
            r.max_diagnostics == max_diagnostics,
    {
        Rule11b { max_diagnostics }
    }

    /// The rule's description.
    pub open spec fn description() -> RuleDescription {
        RuleDescription {
            group_number: 11,
            letter: 'B',
            code: "XI:B",
            name: "NoCRLF",
            description: "do not use DOS-style newlines (\\r\\n)",
        }
    }

    /// Returns the rule's description.
    pub fn describe(&self) -> (r: RuleDescription)
        ensures
            r == Self::description(),
    {
        RuleDescription {
            group_number: 11,
            letter: 'B',
            code: "XI:B",
            name: "NoCRLF",
            description: "do not use DOS-style newlines (\\r\\n)",
        }
    }

    /// What `check` returns on `source`: one diagnostic per line-ending `\r`, in order,
    /// each with one violation over that byte, at most `max_diagnostics` of them; where
    /// more were found, the last one kept notes how many more.
    pub open spec fn checked(&self, source: SourceInfo, r: Seq<Diagnostic>) -> bool {
        let s = source.text();
        let n = dos_crs(s).len();
        &&& r.len() == kept(n, self.max_diagnostics)
        &&& forall|k: int| 0 <= k < r.len() ==> {
            let d = #[trigger] r[k];
            let cr = dos_crs(s)[k];
            let noted = is_limited(n, self.max_diagnostics) && k == r.len() - 1;
            &&& d.rule == Self::description()
            &&& d.ranges_consistent_with(s)
            &&& d.violations.len() == 1
            &&& d.references.len() == 0
            &&& d.violations[0].range.bytes.start == byte_offset(s, cr)
            &&& d.violations[0].range.bytes.end == byte_offset(s, cr) + 1
            &&& d.message@ == "Line contains DOS-style ending"@
            &&& d.violations[0].label@ == Seq::<char>::empty()
            &&& d.suggestion is None
            &&& d.notes.len() == if noted { 2int } else { 1int }
            &&& d.notes[0]@ == crlf_tip()
            &&& noted ==> d.notes[1]@ == decimal((n - r.len()) as nat) + crlf_rest()
        }
    }

    /// One diagnostic per line-ending `\r`, in order, each with one violation over that
    /// byte; at most `max_diagnostics` of them.
    pub fn check(&self, source: &SourceInfo) -> (r: Vec<Diagnostic>)
        requires
            source.wf(),
        ensures
            self.checked(*source, r@),
    {
        let ghost s = source.text();
        let ghost p = |k: int| is_dos_cr(s, k);
        let n = source.index.chars.len();
        let mut diags: Vec<Diagnostic> = Vec::new();
        let mut k: usize = 0;
        while k < n
            invariant
                source.wf(),
                s == source.text(),
                n == s.len(),
                k <= n,
                p == (|k: int| is_dos_cr(s, k)),
                diags.len() == indices_where(k as int, p).len(),
                forall|j: int| 0 <= j < diags.len() ==> {
                    let d = #[trigger] diags[j];
                    let cr = indices_where(k as int, p)[j];
                    &&& d.rule == Self::description()
                    &&& d.ranges_consistent_with(s)
                    &&& d.violations.len() == 1
                    &&& d.references.len() == 0
                    &&& d.violations[0].range.bytes.start == byte_offset(s, cr)
                    &&& d.violations[0].range.bytes.end == byte_offset(s, cr) + 1
                    &&& d.message@ == "Line contains DOS-style ending"@
            &&& d.violations[0].label@ == Seq::<char>::empty()
            &&& d.suggestion is None
                    &&& d.notes.len() == 1
                    &&& d.notes[0]@ == crlf_tip()
                },
            decreases n - k,
        {
            let is_cr = source.index.chars[k] == '\r' && (k + 1 == n || source.index.chars[k + 1] == '\n');
            if is_cr {
                proof {
                    crate::text::lemma_byte_offset_step(s, k as int);
                }
                let range = char_range(source, k, k + 1);
                let d = Diagnostic::new(self.describe(), "Line contains DOS-style ending".to_owned())
                    .with_violation(Span::new(source.filename.as_str(), range, String::new()))
                    .with_note("Use the `fileformat' option in Vim to fix this".to_owned());
                diags.push(d);
            }
            proof {
                assert(is_cr == p(k as int));
            }
            k = k + 1;
        }
        let ghost found = diags@;
        let r = limit_diagnostics(diags, self.max_diagnostics, " more lines contain DOS endings, but those warnings are suppressed to avoid noise.");
        proof {
            lemma_indices_where_bounds(n as int, p);
            assert forall|k: int| 0 <= k < r.len() implies {
                let d = #[trigger] r@[k];
                &&& d.notes.len() >= 1
                &&& d.notes[0]@ == crlf_tip()
            } by {
                if k < r.len() - 1 || !is_limited(found.len() as nat, self.max_diagnostics) {
                    assert(r[k] == found[k]);
                } else {
                    assert(r@.last() == r@[k]);
                    assert(r@[k].notes@.take(1)[0] == found[k].notes@[0]);
                }
            }
        }
        r
    }
}

} // verus!
