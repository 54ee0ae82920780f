//! Source text as characters, with byte offsets, display widths and a line index.

use vstd::prelude::*;
use vstd::utf8::*;
use vstd::string::StringSliceAdditionalSpecFns;

verus! {

broadcast use vstd::string::group_string_axioms;

/// Number of bytes in the UTF-8 encoding of `c`.
pub open spec fn utf8_len_spec(c: char) -> nat {
    encode_scalar(c as u32).len()
}

/// Byte offset of the character at index `i` of `s` (the length of the encoding of `s[..i]`).
pub open spec fn byte_offset(s: Seq<char>, i: int) -> nat {
    encode_utf8(s.take(i)).len()
}

/// Encoding distributes over concatenation.
pub proof fn lemma_encode_concat(a: Seq<char>, b: Seq<char>)
    ensures
        encode_utf8(a + b) == encode_utf8(a) + encode_utf8(b),
    decreases a.len(),
{
    if a.len() == 0 {
        assert(a + b =~= b);
        assert(encode_utf8(a) + encode_utf8(b) =~= encode_utf8(b));
    } else {
        assert((a + b).drop_first() =~= a.drop_first() + b);
        lemma_encode_concat(a.drop_first(), b);
        assert(encode_utf8(a + b) =~= encode_scalar(a[0] as u32) + encode_utf8(a.drop_first() + b));
    }
}

/// Each character adds its encoded length to the byte offset.
pub proof fn lemma_byte_offset_step(s: Seq<char>, i: int)
    requires
        0 <= i < s.len(),
    ensures
        byte_offset(s, i + 1) == byte_offset(s, i) + utf8_len_spec(s[i]),
{
    assert(s.take(i + 1) =~= s.take(i) + seq![s[i]]);
    lemma_encode_concat(s.take(i), seq![s[i]]);
    let one = seq![s[i]];
    assert(one.drop_first() =~= Seq::<char>::empty());
    assert(encode_utf8(one) =~= encode_scalar(s[i] as u32) + encode_utf8(one.drop_first()));
    assert(encode_utf8(one).len() == utf8_len_spec(s[i]));
}

/// Byte offsets grow with the character index and stay within the encoding.
pub proof fn lemma_byte_offset_mono(s: Seq<char>, i: int, j: int)
    requires
        0 <= i <= j <= s.len(),
    ensures
        byte_offset(s, i) <= byte_offset(s, j),
        byte_offset(s, j) <= encode_utf8(s).len(),
{
    assert(s.take(j) =~= s.take(i) + s.subrange(i, j));
    lemma_encode_concat(s.take(i), s.subrange(i, j));
    assert(s =~= s.take(j) + s.subrange(j, s.len() as int));
    lemma_encode_concat(s.take(j), s.subrange(j, s.len() as int));
}

/// Number of bytes in the UTF-8 encoding of `c`.
pub fn utf8_len(c: char) -> (r: usize)
    ensures
        r == utf8_len_spec(c),
        1 <= r <= 4,
{
    let v = c as u32;
    if v < 0x80 {
        1
    } else if v < 0x800 {
        2
    } else if v < 0x10000 {
        3
    } else {
        4
    }
}

/// The characters of `s`, in order.
pub fn chars_of(s: &str) -> (r: Vec<char>)
    ensures
        r@ == s@,
{
    let mut out: Vec<char> = Vec::new();
    for c in it: s.chars()
        invariant
            out@ == it.seq().take(it.index() as int),
    {
        out.push(c);
    }
    out
}


/// Column width that the Unicode East-Asian-width tables give a character
/// (`None` for a control character).
pub uninterp spec fn unicode_char_width(c: char) -> Option<usize>;

/// Relies on `unicode_width::UnicodeWidthChar::width`: the displayed width of one
/// character in columns, or `None` for a control character; printable ASCII is one
/// column wide, and the C0 and C1 control characters have no width.
#[verifier::external_body]
fn unicode_width_of(c: char) -> (r: Option<usize>)
    ensures
        r == unicode_char_width(c),
        '\u{20}' <= c && c < '\u{7f}' ==> r == Some(1usize),
        c < '\u{20}' || ('\u{7f}' <= c && c < '\u{a0}') ==> r is None,
{
    unicode_width::UnicodeWidthChar::width(c)
}

/// Columns that one character occupies: a tab is 8 columns, printable ASCII 1, a
/// control character 0, every other character its East-Asian width.
pub open spec fn char_columns(c: char) -> nat {
    if c == '\t' {
        8
    } else if ('\u{20}' <= c && c < '\u{7f}') {
        1
    } else if (c < '\u{20}' || ('\u{7f}' <= c && c < '\u{a0}')) {
        0
    } else {
        match unicode_char_width(c) {
            Some(w) => w as nat,
            None => 0,
        }
    }
}

/// `n`, or the largest `usize` where `n` is larger.
pub open spec fn saturate(n: nat) -> nat {
    if n > usize::MAX {
        usize::MAX as nat
    } else {
        n
    }
}

/// Display width of a run of characters (sums saturate at `usize::MAX`).
pub open spec fn display_width(s: Seq<char>) -> nat
    decreases s.len(),
{
    if s.len() == 0 {
        0
    } else {
        saturate(display_width(s.drop_last()) + char_columns(s.last()))
    }
}

/// Columns that one character occupies.
pub fn columns_of(c: char) -> (r: usize)
    ensures
        r == char_columns(c),
{
    if c == '\t' {
        8
    } else if ('\u{20}' <= c && c < '\u{7f}') {
        1
    } else if (c < '\u{20}' || ('\u{7f}' <= c && c < '\u{a0}')) {
        0
    } else {
        match unicode_width_of(c) {
            Some(w) => w,
            None => 0,
        }
    }
}

/// Display width of `chars[lo..hi]`.
pub fn width_of_range(chars: &Vec<char>, lo: usize, hi: usize) -> (r: usize)
    requires
        lo <= hi <= chars.len(),
    ensures
        r == display_width(chars@.subrange(lo as int, hi as int)),
{
    let mut w: usize = 0;
    let mut k: usize = lo;
    while k < hi
        invariant
            lo <= k <= hi <= chars.len(),
            w == display_width(chars@.subrange(lo as int, k as int)),
        decreases hi - k,
    {
        let c = columns_of(chars[k]);
        proof {
            let next = chars@.subrange(lo as int, k + 1);
            assert(next.drop_last() =~= chars@.subrange(lo as int, k as int));
        }
        w = w.saturating_add(c);
        k = k + 1;
    }
    w
}

/// Returns the width of a line in columns: tabs count as 8 columns and every other
/// character by its East-Asian width.
pub fn line_width(line: &str) -> (r: usize)
    ensures
        r == display_width(line@),
{
    let chars = chars_of(line);
    let r = width_of_range(&chars, 0, chars.len());
    assert(chars@.subrange(0, chars@.len() as int) =~= line@);
    r
}

/// Whether `c` has the Unicode `White_Space` property.
pub open spec fn is_whitespace_spec(c: char) -> bool {
    ('\u{9}' <= c && c <= '\u{d}') || c == ' ' || c == '\u{85}' || c == '\u{a0}' || c == '\u{1680}'
        || ('\u{2000}' <= c && c <= '\u{200a}') || c == '\u{2028}' || c == '\u{2029}'
        || c == '\u{202f}' || c == '\u{205f}' || c == '\u{3000}'
}

/// Whether `c` has the Unicode `White_Space` property.
pub fn is_whitespace(c: char) -> (r: bool)
    ensures
        r == is_whitespace_spec(c),
{
    ('\u{9}' <= c && c <= '\u{d}') || c == ' ' || c == '\u{85}' || c == '\u{a0}' || c == '\u{1680}'
        || ('\u{2000}' <= c && c <= '\u{200a}') || c == '\u{2028}' || c == '\u{2029}'
        || c == '\u{202f}' || c == '\u{205f}' || c == '\u{3000}'
}

/// Number of whitespace characters at the start of `s`.
pub open spec fn leading_ws(s: Seq<char>) -> nat
    decreases s.len(),
{
    if s.len() > 0 && is_whitespace_spec(s[0]) {
        1 + leading_ws(s.drop_first())
    } else {
        0
    }
}

/// Number of whitespace characters at the end of `s`.
pub open spec fn trailing_ws(s: Seq<char>) -> nat
    decreases s.len(),
{
    if s.len() > 0 && is_whitespace_spec(s.last()) {
        1 + trailing_ws(s.drop_last())
    } else {
        0
    }
}

/// Leading whitespace counts through `k` whitespace characters.
pub proof fn lemma_leading_ws(s: Seq<char>, k: int)
    requires
        0 <= k <= s.len(),
        forall|j: int| 0 <= j < k ==> is_whitespace_spec(#[trigger] s[j]),
    ensures
        leading_ws(s) == k + leading_ws(s.subrange(k, s.len() as int)),
    decreases k,
{
    if k == 0 {
        assert(s.subrange(0, s.len() as int) =~= s);
    } else {
        let t = s.drop_first();
        assert forall|j: int| 0 <= j < k - 1 implies is_whitespace_spec(#[trigger] t[j]) by {
            assert(t[j] == s[j + 1]);
        }
        lemma_leading_ws(t, k - 1);
        assert(t.subrange(k - 1, t.len() as int) =~= s.subrange(k, s.len() as int));
    }
}

/// There is no more trailing whitespace than characters.
pub proof fn lemma_trailing_ws_bound(s: Seq<char>)
    ensures
        trailing_ws(s) <= s.len(),
    decreases s.len(),
{
    if s.len() > 0 {
        lemma_trailing_ws_bound(s.drop_last());
    }
}

/// Trailing whitespace counts back through whitespace characters after `k`.
pub proof fn lemma_trailing_ws(s: Seq<char>, k: int)
    requires
        0 <= k <= s.len(),
        forall|j: int| k <= j < s.len() ==> is_whitespace_spec(#[trigger] s[j]),
    ensures
        trailing_ws(s) == (s.len() - k) + trailing_ws(s.subrange(0, k)),
    decreases s.len() - k,
{
    if k == s.len() {
        assert(s.subrange(0, k) =~= s);
    } else {
        let t = s.drop_last();
        assert forall|j: int| k <= j < t.len() implies is_whitespace_spec(#[trigger] t[j]) by {
            assert(t[j] == s[j]);
        }
        lemma_trailing_ws(t, k);
        assert(t.subrange(0, k) =~= s.subrange(0, k));
    }
}

/// Number of whitespace characters at the start of `chars[lo..hi]`.
pub fn leading_ws_in(chars: &Vec<char>, lo: usize, hi: usize) -> (r: usize)
    requires
        lo <= hi <= chars.len(),
    ensures
        r == leading_ws(chars@.subrange(lo as int, hi as int)),
        r <= hi - lo,
{
    let ghost s = chars@.subrange(lo as int, hi as int);
    let mut k: usize = lo;
    while k < hi && is_whitespace(chars[k])
        invariant
            lo <= k <= hi <= chars.len(),
            s == chars@.subrange(lo as int, hi as int),
            forall|j: int| 0 <= j < k - lo ==> is_whitespace_spec(#[trigger] s[j]),
        decreases hi - k,
    {
        k = k + 1;
    }
    proof {
        lemma_leading_ws(s, k - lo);
        let rest = s.subrange(k - lo, s.len() as int);
        if rest.len() > 0 {
            assert(rest[0] == chars@[k as int]);
        }
    }
    k - lo
}

/// Number of whitespace characters at the end of `chars[lo..hi]`.
pub fn trailing_ws_in(chars: &Vec<char>, lo: usize, hi: usize) -> (r: usize)
    requires
        lo <= hi <= chars.len(),
    ensures
        r == trailing_ws(chars@.subrange(lo as int, hi as int)),
        r <= hi - lo,
{
    let ghost s = chars@.subrange(lo as int, hi as int);
    let mut k: usize = hi;
    while k > lo && is_whitespace(chars[k - 1])
        invariant
            lo <= k <= hi <= chars.len(),
            s == chars@.subrange(lo as int, hi as int),
            forall|j: int| k - lo <= j < s.len() ==> is_whitespace_spec(#[trigger] s[j]),
        decreases k - lo,
    {
        k = k - 1;
    }
    proof {
        lemma_trailing_ws(s, k - lo);
        let rest = s.subrange(0, k - lo);
        if rest.len() > 0 {
            assert(rest.last() == chars@[k - 1]);
        }
    }
    hi - k
}

/// Gets the number of columns by which this line is indented: the display width of
/// its leading whitespace.
pub fn indent_width(line: &str) -> (r: usize)
    ensures
        r == display_width(line@.take(leading_ws(line@) as int)),
{
    let chars = chars_of(line);
    let n = leading_ws_in(&chars, 0, chars.len());
    assert(chars@.subrange(0, chars@.len() as int) =~= line@);
    let r = width_of_range(&chars, 0, n);
    assert(chars@.subrange(0, n as int) =~= line@.take(n as int));
    r
}

} // verus!

verus! {

/// Whether `a` and `b` hold the same characters.
pub fn str_eq(a: &str, b: &str) -> (r: bool)
    ensures
        r == (a@ == b@),
{
    let x = a.as_bytes();
    let y = b.as_bytes();
    proof {
        encode_utf8_decode_utf8(a@);
        encode_utf8_decode_utf8(b@);
        assert(x@ == encode_utf8(a@));
        assert(y@ == encode_utf8(b@));
    }
    if x.len() != y.len() {
        return false;
    }
    let mut i: usize = 0;
    while i < x.len()
        invariant
            x.len() == y.len(),
            x@ == encode_utf8(a@),
            y@ == encode_utf8(b@),
            i <= x.len(),
            forall|k: int| 0 <= k < i ==> x@[k] == y@[k],
        decreases x.len() - i,
    {
        if x[i] != y[i] {
            return false;
        }
        i = i + 1;
    }
    assert(x@ =~= y@);
    true
}

} // verus!
