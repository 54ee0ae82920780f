//! One source file as the rules see it: its name, its text with a line index, and its
//! syntax tree.

use vstd::prelude::*;
use vstd::string::StringSliceAdditionalSpecFns;
use vstd::utf8::*;
use crate::lines::{char_index_at, LinesWithPosition};
use crate::syntax::{c_syntax_of, holds_records, SyntaxTree};

verus! {

/// Relies on `String::push`: appends one character.
#[verifier::external_body]
pub(crate) fn push_char(s: &mut String, c: char)
    ensures
        final(s)@ == old(s)@.push(c),
{
    s.push(c)
}

/// An immutable view of one source file.
pub struct SourceInfo {
    /// Name of the file.
    pub filename: String,
    /// The text with its byte offsets and lines.
    pub index: LinesWithPosition,
    /// The syntax tree of the text.
    pub tree: SyntaxTree,
}

impl SourceInfo {
    /// The line index and the tree describe the same text.
    pub open spec fn wf(&self) -> bool {
        &&& self.index.wf()
        &&& self.tree.wf()
        &&& self.tree.text_len == self.index.byte_len()
    }

    /// The characters of the text.
    pub open spec fn text(&self) -> Seq<char> {
        self.index.chars@
    }

    /// Length of the text in bytes.
    pub open spec fn byte_len(&self) -> nat {
        self.index.byte_len()
    }

    /// Builds the line index of `code` and parses it.
    pub fn new(filename: &str, code: &str) -> (r: Self)
        ensures
            r.wf(),
            r.filename@ == filename@,
            r.text() == code@,
            match c_syntax_of(code@) {
                Some(v) => holds_records(r.tree, v),
                None => r.tree.nodes.len() == 0,
            },
    {
        let index = LinesWithPosition::from(code);
        let tree = SyntaxTree::parse(code);
        proof {
            assert(code.spec_bytes() == encode_utf8(code@));
        }
        SourceInfo { filename: filename.to_owned(), index, tree }
    }

    /// Index of the character that holds byte offset `b`.
    pub fn char_index(&self, b: usize) -> (r: usize)
        requires
            self.wf(),
        ensures
            r == char_index_at(self.text(), b as int),
            r <= self.text().len(),
    {
        self.index.char_index_at_byte(b)
    }

    /// The characters of `text[lo..hi]`, by character index.
    pub fn chars_between(&self, lo: usize, hi: usize) -> (r: String)
        requires
            self.wf(),
            lo <= hi <= self.text().len(),
        ensures
            r@ == self.text().subrange(lo as int, hi as int),
    {
        let mut out = String::new();
        let mut k: usize = lo;
        while k < hi
            invariant
                self.wf(),
                lo <= k <= hi <= self.text().len(),
                out@ == self.text().subrange(lo as int, k as int),
            decreases hi - k,
        {
            push_char(&mut out, self.index.chars[k]);
            assert(self.text().subrange(lo as int, k + 1) =~= self.text().subrange(lo as int, k as int).push(self.text()[k as int]));
            k = k + 1;
        }
        out
    }

    /// The text of node `i` of the tree.
    pub fn node_text(&self, i: usize) -> (r: String)
        requires
            self.wf(),
            i < self.tree.nodes.len(),
        ensures
            r@ == self.text().subrange(
                char_index_at(self.text(), self.tree.nodes[i as int].start as int),
                char_index_at(self.text(), self.tree.nodes[i as int].end as int),
            ),
    {
        let lo = self.char_index(self.tree.nodes[i].start);
        let hi = self.char_index(self.tree.nodes[i].end);
        proof {
            assert(self.tree.node_wf(i as int));
            crate::lines::lemma_char_index_monotone(self.text(), self.tree.nodes[i as int].start as int, self.tree.nodes[i as int].end as int);
        }
        self.chars_between(lo, hi)
    }
}

} // verus!

verus! {

/// Decimal digits of `n`, most significant first.
pub open spec fn decimal(n: nat) -> Seq<char>
    decreases n,
{
    if n < 10 {
        seq![digit_char(n)]
    } else {
        decimal(n / 10).push(digit_char(n % 10))
    }
}

/// The character of the decimal digit `d`.
pub open spec fn digit_char(d: nat) -> char {
    if d == 0 { '0' } else if d == 1 { '1' } else if d == 2 { '2' } else if d == 3 { '3' }
    else if d == 4 { '4' } else if d == 5 { '5' } else if d == 6 { '6' } else if d == 7 { '7' }
    else if d == 8 { '8' } else { '9' }
}

fn digit(d: usize) -> (r: char)
    requires
        d < 10,
    ensures
        r == digit_char(d as nat),
{
    if d == 0 { '0' } else if d == 1 { '1' } else if d == 2 { '2' } else if d == 3 { '3' }
    else if d == 4 { '4' } else if d == 5 { '5' } else if d == 6 { '6' } else if d == 7 { '7' }
    else if d == 8 { '8' } else { '9' }
}

/// Appends the decimal digits of `n` to `s`.
pub fn push_decimal(s: &mut String, n: usize)
    ensures
        final(s)@ == old(s)@ + decimal(n as nat),
    decreases n,
{
    if n < 10 {
        push_char(s, digit(n));
        assert(decimal(n as nat) =~= seq![digit_char(n as nat)]);
    } else {
        push_decimal(s, n / 10);
        push_char(s, digit(n % 10));
        assert(old(s)@ + decimal(n as nat) =~= old(s)@ + decimal((n / 10) as nat) + seq![digit_char((n % 10) as nat)]);
    }
}

/// Appends the characters of `t` to `s`.
pub fn push_str(s: &mut String, t: &str)
    ensures
        final(s)@ == old(s)@ + t@,
{
    let cs = crate::text::chars_of(t);
    let ghost start = s@;
    let mut k: usize = 0;
    while k < cs.len()
        invariant
            k <= cs.len(),
            cs@ == t@,
            s@ == start + cs@.take(k as int),
        decreases cs.len() - k,
    {
        push_char(s, cs[k]);
        assert(cs@.take(k + 1) =~= cs@.take(k as int).push(cs@[k as int]));
        k = k + 1;
    }
    assert(cs@.take(cs.len() as int) =~= cs@);
}

} // verus!
