//! The rule catalog, and what the rules share.

pub mod rule1a;
pub mod rule01b;
pub mod rule01c;
pub mod rule1d;
pub mod rule02a;
pub mod rule02b;
pub mod rule03a;
pub mod rule3b;
pub mod rule3c;
pub mod rule3d;
pub mod rule03e;
pub mod rule3f;
pub mod rule11a;
pub mod rule11b;
pub mod rule11e;
pub mod rule12a;

use vstd::prelude::*;
use crate::diagnostic::{Diagnostic, SourceRange};
use crate::source::{push_decimal, push_str, SourceInfo, decimal};
use crate::text::byte_offset;

verus! {

/// Rule I:B, under its short name.
pub type Rule1b = rule01b::Rule01b;

/// Rule I:C, under its short name.
pub type Rule1c = rule01c::Rule01c;

/// Rule II:A, under its short name.
pub type Rule2a = rule02a::Rule02a;

/// Rule II:B, under its short name.
pub type Rule2b = rule02b::Rule02b;

/// Rule III:E, under its short name.
pub type Rule3e = rule03e::Rule03e;

/// The indices `i < n` for which `p(i)` holds, in increasing order.
pub open spec fn indices_where(n: int, p: spec_fn(int) -> bool) -> Seq<int>
    decreases n,
{
    if n <= 0 {
        Seq::empty()
    } else if p(n - 1) {
        indices_where(n - 1, p).push(n - 1)
    } else {
        indices_where(n - 1, p)
    }
}

/// The selected indices lie below `n`, satisfy `p`, and are at most `n` many.
pub proof fn lemma_indices_where_bounds(n: int, p: spec_fn(int) -> bool)
    ensures
        forall|k: int| 0 <= k < indices_where(n, p).len() ==> 0 <= #[trigger] indices_where(n, p)[k] < n
            && p(indices_where(n, p)[k]),
        indices_where(n, p).len() <= if n < 0 { 0 } else { n },
    decreases n,
{
    if n > 0 {
        lemma_indices_where_bounds(n - 1, p);
    }
}

/// An index below `n` is selected exactly when it satisfies `p`.
pub proof fn lemma_indices_where_contains(n: int, p: spec_fn(int) -> bool, i: int)
    requires
        0 <= i < n,
    ensures
        indices_where(n, p).contains(i) <==> p(i),
    decreases n,
{
    lemma_indices_where_bounds(n, p);
    if n - 1 > i {
        lemma_indices_where_contains(n - 1, p, i);
        if p(n - 1) {
            let prev = indices_where(n - 1, p);
            assert(indices_where(n, p) == prev.push(n - 1));
            if prev.contains(i) {
                let k = choose|k: int| 0 <= k < prev.len() && prev[k] == i;
                assert(indices_where(n, p)[k] == i);
            }
            if indices_where(n, p).contains(i) {
                let k = choose|k: int| 0 <= k < indices_where(n, p).len() && indices_where(n, p)[k] == i;
                assert(k < prev.len());
                assert(prev[k] == i);
            }
        }
    } else {
        lemma_indices_where_bounds(n - 1, p);
        if p(i) {
            assert(indices_where(n, p).last() == i);
        } else {
            if indices_where(n, p).contains(i) {
                let k = choose|k: int| 0 <= k < indices_where(n, p).len() && indices_where(n, p)[k] == i;
                assert(indices_where(n - 1, p)[k] < n - 1);
            }
        }
    }
}

/// The source range of the characters `lo..hi` of the text.
pub fn char_range(source: &SourceInfo, lo: usize, hi: usize) -> (r: SourceRange)
    requires
        source.wf(),
        lo <= hi <= source.text().len(),
    ensures
        r.bytes.start == byte_offset(source.text(), lo as int),
        r.bytes.end == byte_offset(source.text(), hi as int),
        r.consistent_with(source.text()),
{
    proof {
        crate::text::lemma_byte_offset_mono(source.text(), lo as int, hi as int);
    }
    let a = source.index.offsets[lo];
    let b = source.index.offsets[hi];
    SourceRange::from_byte_range(a..b, source)
}

/// Number of diagnostics kept under the optional bound `max` (a bound of 0 is no bound).
pub open spec fn kept(n: nat, max: Option<usize>) -> nat {
    match max {
        Some(m) => if m > 0 && n > m { m as nat } else { n },
        None => n,
    }
}

/// Whether a bound `max` cuts `n` diagnostics down.
pub open spec fn is_limited(n: nat, max: Option<usize>) -> bool {
    max matches Some(m) && m > 0 && n > m
}

/// Keeps at most `max` diagnostics; when more were found, the last one kept gets a note
/// that says how many more there were (the count, then `what`).
pub fn limit_diagnostics(diags: Vec<Diagnostic>, max: Option<usize>, what: &str) -> (r: Vec<Diagnostic>)
    ensures
        r.len() == kept(diags.len() as nat, max),
        forall|k: int| 0 <= k < r.len() - 1 ==> r[k] == diags[k],
        !is_limited(diags.len() as nat, max) ==> r@ == diags@,
        is_limited(diags.len() as nat, max) ==> ({
            let last = r@.last();
            let orig = diags@[r.len() - 1];
            &&& last.rule == orig.rule && last.message == orig.message
            &&& last.violations == orig.violations && last.references == orig.references
            &&& last.suggestion == orig.suggestion
            &&& last.notes.len() == orig.notes.len() + 1
            &&& last.notes@.take(orig.notes.len() as int) == orig.notes@
            &&& last.notes@.last()@ == decimal((diags.len() - r.len()) as nat) + what@
        }),
{
    match max {
        Some(m) => {
            if m > 0 && diags.len() > m {
                let total = diags.len();
                let mut out = diags;
                out.truncate(m);
                let last = out.pop().unwrap();
                let mut note = String::new();
                push_decimal(&mut note, total - m);
                push_str(&mut note, what);
                let ghost orig_notes = last.notes@;
                let last = last.with_note(note);
                assert(last.notes@.take(orig_notes.len() as int) =~= orig_notes);
                assert(Seq::<char>::empty() + decimal((total - m) as nat) =~= decimal((total - m) as nat));
                out.push(last);
                out
            } else {
                diags
            }
        },
        None => diags,
    }
}

} // verus!
