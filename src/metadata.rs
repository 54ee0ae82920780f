//! Metadata about the program, as a crash report prints it.

use vstd::prelude::*;
use std::borrow::Cow;
use crate::source::{push_char, push_str};

verus! {

/// Characters of the upper-case form of `c`, as Unicode's case mapping gives them.
pub uninterp spec fn uppercase_of(c: char) -> Seq<char>;

/// Relies on `char::to_uppercase`: the characters of the upper-case mapping of `c`.
#[verifier::external_body]
pub(crate) fn uppercase_chars(c: char) -> (r: String)
    ensures
        r@ == uppercase_of(c),
{
    c.to_uppercase().collect()
}

/// Metadata about the program to be printed in a crash report.
#[derive(Debug)]
pub struct ProgramMetadata {
    pub package: String,
    pub binary: String,
    pub version: String,
    pub repository: String,
    pub authors: String,
}

impl ProgramMetadata {
    /// Metadata from the values that Cargo sets at build time, with `placeholder` for
    /// each value that is not set; the `:` separators of the author list become `, `.
    pub fn from_cargo(
        package: Option<&str>,
        binary: Option<&str>,
        version: Option<&str>,
        repository: Option<&str>,
        authors: Option<&str>,
        placeholder: &str,
    ) -> (r: Self)
        ensures
            r.package@ == (match package { Some(p) => p@, None => placeholder@ }),
            r.binary@ == (match binary { Some(b) => b@, None => placeholder@ }),
            r.version@ == (match version { Some(v) => v@, None => placeholder@ }),
            r.repository@ == (match repository { Some(v) => v@, None => placeholder@ }),
            r.authors@ == (match authors { Some(a) => replaced(a@, ":"@, ", "@), None => placeholder@ }),
    {
        let authors = match authors {
            Some(a) => {
                let sep = ":";
                let joined = ", ";
                match cow_replace(a, sep, joined) {
                    Cow::Owned(o) => o,
                    Cow::Borrowed(b) => {
                        proof {
                            lemma_replaced_absent(a@, sep@, joined@);
                        }
                        b.to_owned()
                    },
                }
            },
            None => placeholder.to_owned(),
        };
        ProgramMetadata {
            package: Self::or_placeholder(package, placeholder),
            binary: Self::or_placeholder(binary, placeholder),
            version: Self::or_placeholder(version, placeholder),
            repository: Self::or_placeholder(repository, placeholder),
            authors,
        }
    }

    fn or_placeholder(v: Option<&str>, placeholder: &str) -> (r: String)
        ensures
            r@ == (match v { Some(s) => s@, None => placeholder@ }),
    {
        match v {
            Some(s) => s.to_owned(),
            None => placeholder.to_owned(),
        }
    }

    /// Capitalizes the first letter of the package name.
    pub fn capitalized(self) -> (r: Self)
        ensures
            self.package@.len() == 0 ==> r.package@ == self.package@,
            self.package@.len() > 0 ==> r.package@ == uppercase_of(self.package@[0]) + self.package@.skip(1),
            r.binary == self.binary && r.version == self.version,
            r.repository == self.repository && r.authors == self.authors,
    {
        let chars = crate::text::chars_of(self.package.as_str());
        if chars.len() == 0 {
            return self;
        }
        let mut package = uppercase_chars(chars[0]);
        let ghost head = package@;
        let mut k: usize = 1;
        while k < chars.len()
            invariant
                1 <= k <= chars.len(),
                chars@ == self.package@,
                package@ == head + chars@.subrange(1, k as int),
            decreases chars.len() - k,
        {
            push_char(&mut package, chars[k]);
            assert(chars@.subrange(1, k + 1) =~= chars@.subrange(1, k as int).push(chars@[k as int]));
            k = k + 1;
        }
        assert(chars@.subrange(1, chars.len() as int) =~= self.package@.skip(1));
        ProgramMetadata { package, ..self }
    }
}

/// Whether `pat` occurs in `s` at index `i`.
pub open spec fn occurs_at(s: Seq<char>, pat: Seq<char>, i: int) -> bool {
    0 <= i && i + pat.len() <= s.len() && s.subrange(i, i + pat.len()) == pat
}

/// Whether `pat` occurs in `s`.
pub open spec fn occurs_in(s: Seq<char>, pat: Seq<char>) -> bool {
    exists|i: int| occurs_at(s, pat, i)
}

/// `s` with every occurrence of `from`, taken from the left without overlap, replaced
/// by `to` (an empty `from` matches before every character and at the end).
pub open spec fn replaced(s: Seq<char>, from: Seq<char>, to: Seq<char>) -> Seq<char>
    decreases s.len(),
{
    if from.len() == 0 {
        if s.len() == 0 {
            to
        } else {
            to + seq![s[0]] + replaced(s.skip(1), from, to)
        }
    } else if occurs_at(s, from, 0) {
        to + replaced(s.skip(from.len() as int), from, to)
    } else if s.len() == 0 {
        s
    } else {
        seq![s[0]] + replaced(s.skip(1), from, to)
    }
}

/// Whether `from` occurs in `cs` at index `i`.
fn occurs_at_exec(cs: &Vec<char>, from: &Vec<char>, i: usize) -> (r: bool)
    requires
        i <= cs.len(),
    ensures
        r == occurs_at(cs@, from@, i as int),
{
    if from.len() > cs.len() - i {
        return false;
    }
    let mut k: usize = 0;
    while k < from.len()
        invariant
            i + from.len() <= cs.len(),
            k <= from.len(),
            forall|m: int| 0 <= m < k ==> cs@[i + m] == from@[m],
        decreases from.len() - k,
    {
        if cs[i + k] != from[k] {
            assert(cs@.subrange(i as int, i + from.len())[k as int] != from@[k as int]);
            return false;
        }
        k = k + 1;
    }
    assert(cs@.subrange(i as int, i + from.len()) =~= from@);
    true
}

/// Where a non-empty `from` does not occur in `s`, replacing it changes nothing.
pub proof fn lemma_replaced_absent(s: Seq<char>, from: Seq<char>, to: Seq<char>)
    requires
        !occurs_in(s, from),
    ensures
        replaced(s, from, to) == s,
    decreases s.len(),
{
    if from.len() == 0 {
        assert(occurs_at(s, from, 0)) by {
            assert(s.subrange(0, 0) =~= from);
        }
    } else if s.len() > 0 {
        assert(!occurs_at(s, from, 0));
        let t = s.skip(1);
        assert forall|i: int| !occurs_at(t, from, i) by {
            if occurs_at(t, from, i) {
                assert(s.subrange(i + 1, i + 1 + from.len()) =~= t.subrange(i, i + from.len()));
                assert(occurs_at(s, from, i + 1));
            }
        }
        lemma_replaced_absent(t, from, to);
        assert(seq![s[0]] + t =~= s);
    }
}

/// Like `str::replace`, but copies the string only where `from` occurs in it.
pub fn cow_replace<'a>(s: &'a str, from: &str, to: &str) -> (r: Cow<'a, str>)
    ensures
        occurs_in(s@, from@) ==> (r matches Cow::Owned(o) && o@ == replaced(s@, from@, to@)),
        !occurs_in(s@, from@) ==> (r matches Cow::Borrowed(b) && b@ == s@),
{
    let cs = crate::text::chars_of(s);
    let pat = crate::text::chars_of(from);
    let mut found = false;
    let mut i: usize = 0;
    while i < cs.len()
        invariant
            cs@ == s@,
            pat@ == from@,
            i <= cs.len(),
            found ==> occurs_in(s@, from@),
            !found ==> forall|j: int| 0 <= j < i ==> !occurs_at(s@, from@, j),
        ensures
            found ==> occurs_in(s@, from@),
            !found ==> i == cs.len() && forall|j: int| 0 <= j < i ==> !occurs_at(s@, from@, j),
        decreases cs.len() - i,
    {
        if occurs_at_exec(&cs, &pat, i) {
            found = true;
            break;
        }
        i = i + 1;
    }
    if !found && occurs_at_exec(&cs, &pat, cs.len()) {
        found = true;
        assert(occurs_at(s@, from@, cs.len() as int));
    }
    if !found {
        assert forall|j: int| !occurs_at(s@, from@, j) by {
            if 0 <= j && j + from@.len() <= s@.len() && j < i {
                assert(!occurs_at(s@, from@, j));
            }
        }
        return Cow::Borrowed(s);
    }
    let mut out = String::new();
    assert(out@ + replaced(cs@.skip(0), from@, to@) =~= replaced(s@, from@, to@)) by {
        assert(cs@.skip(0) =~= cs@);
    }
    let mut k: usize = 0;
    while k < cs.len()
        invariant
            cs@ == s@,
            pat@ == from@,
            k <= cs.len(),
            out@ + replaced(cs@.skip(k as int), from@, to@) == replaced(s@, from@, to@),
        decreases cs.len() - k,
    {
        let ghost rest = cs@.skip(k as int);
        let ghost before = out@;
        if pat.len() == 0 {
            push_str(&mut out, to);
            push_char(&mut out, cs[k]);
            assert(rest.skip(1) =~= cs@.skip(k + 1));
            assert(before + replaced(rest, from@, to@) =~= out@ + replaced(cs@.skip(k + 1), from@, to@));
            k = k + 1;
        } else if occurs_at_exec(&cs, &pat, k) {
            assert(rest.subrange(0, from@.len() as int) =~= cs@.subrange(k as int, k + from@.len()));
            push_str(&mut out, to);
            assert(rest.skip(from@.len() as int) =~= cs@.skip(k + pat.len()));
            assert(before + replaced(rest, from@, to@) =~= out@ + replaced(cs@.skip(k + pat.len()), from@, to@));
            k = k + pat.len();
        } else {
            assert(!occurs_at(rest, from@, 0)) by {
                if rest.len() >= from@.len() {
                    assert(rest.subrange(0, from@.len() as int) =~= cs@.subrange(k as int, k + from@.len()));
                }
            }
            push_char(&mut out, cs[k]);
            assert(rest.skip(1) =~= cs@.skip(k + 1));
            assert(before + replaced(rest, from@, to@) =~= out@ + replaced(cs@.skip(k + 1), from@, to@));
            k = k + 1;
        }
    }
    let ghost tail = cs@.skip(k as int);
    assert(tail.len() == 0);
    if pat.len() == 0 {
        push_str(&mut out, to);
    } else {
        assert(!occurs_at(tail, from@, 0));
        assert(replaced(tail, from@, to@) =~= tail);
    }
    proof {
        assert(out@ =~= replaced(s@, from@, to@));
    }
    Cow::Owned(out)
}

} // verus!
