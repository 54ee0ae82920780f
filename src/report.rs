//! The machine-parseable rendering of a diagnostic.

use vstd::prelude::*;
use crate::diagnostic::Diagnostic;
use crate::source::{decimal, push_char, push_decimal, push_str};

verus! {

/// `n` spaces.
pub open spec fn spaces(n: nat) -> Seq<char>
    decreases n,
{
    if n == 0 {
        Seq::empty()
    } else {
        spaces((n - 1) as nat).push(' ')
    }
}

/// The two lines that render diagnostic `d`, whose first violation is `v`: the
/// severity, the rule's code in brackets, the message, then the file and the 1-indexed
/// line and column of both ends of `v`.
pub open spec fn machine_text(d: Diagnostic) -> Seq<char> {
    let v = d.violations[0];
    let code = if d.rule.code@.len() == 0 {
        Seq::<char>::empty()
    } else {
        "["@ + d.rule.code@ + "] "@
    };
    "WARNING: "@ + code + d.message@ + "\n"@ + spaces(9) + "at "@ + v.filename@ + " from line "@
        + decimal((v.range.start_pos.0 + 1) as nat) + " column "@ + decimal((v.range.start_pos.1 + 1) as nat)
        + " to line "@ + decimal((v.range.end_pos.0 + 1) as nat) + " column "@
        + decimal((v.range.end_pos.1 + 1) as nat) + "\n"@
}

/// Renders `d` in the machine-parseable format: only its first violation is shown;
/// references, labels and notes are left out. `None` for a diagnostic without a
/// violation.
pub fn machine_format(d: &Diagnostic) -> (r: Option<String>)
    requires
        d.violations.len() > 0 ==> d.violations[0].range.start_pos.0 < usize::MAX
            && d.violations[0].range.start_pos.1 < usize::MAX && d.violations[0].range.end_pos.0 < usize::MAX
            && d.violations[0].range.end_pos.1 < usize::MAX,
    ensures
        r is None <==> d.violations.len() == 0,
        r matches Some(s) ==> s@ == machine_text(*d),
{
    if d.violations.len() == 0 {
        return None;
    }
    let v = &d.violations[0];
    let mut out = "WARNING: ".to_owned();
    let ghost a = out@;
    if !d.rule.code.is_empty() {
        push_str(&mut out, "[");
        push_str(&mut out, d.rule.code);
        push_str(&mut out, "] ");
    }
    push_str(&mut out, d.message.as_str());
    push_str(&mut out, "\n");
    assert(out@ =~= a + (if d.rule.code@.len() == 0 { Seq::<char>::empty() } else { "["@ + d.rule.code@ + "] "@ })
        + d.message@ + "\n"@ + spaces(0));
    let mut k: usize = 0;
    while k < 9
        invariant
            k <= 9,
            out@ == a + (if d.rule.code@.len() == 0 { Seq::<char>::empty() } else { "["@ + d.rule.code@ + "] "@ })
                + d.message@ + "\n"@ + spaces(k as nat),
        decreases 9 - k,
    {
        push_char(&mut out, ' ');
        k = k + 1;
        assert(spaces(k as nat) == spaces((k - 1) as nat).push(' '));
    }
    push_str(&mut out, "at ");
    push_str(&mut out, v.filename.as_str());
    push_str(&mut out, " from line ");
    push_decimal(&mut out, v.range.start_pos.0 + 1);
    push_str(&mut out, " column ");
    push_decimal(&mut out, v.range.start_pos.1 + 1);
    push_str(&mut out, " to line ");
    push_decimal(&mut out, v.range.end_pos.0 + 1);
    push_str(&mut out, " column ");
    push_decimal(&mut out, v.range.end_pos.1 + 1);
    push_str(&mut out, "\n");
    proof {
        assert(out@ =~= machine_text(*d));
    }
    Some(out)
}

} // verus!
