//! Bytes and byte classes: the ground that both grammars stand on.
//!
//! The grammars of this crate are written over positions in a byte
//! sequence. A [`Class`] is a set of bytes; [`span`] is the end of the
//! longest run of one class that starts at a position.

use vstd::prelude::*;
use vstd::slice::slice_subrange;
use vstd::utf8::{encode_utf8, valid_utf8};
use vstd::string::StringSliceAdditionalSpecFns;

verus! {

/// Whether `b` is a decimal digit.
pub open spec fn is_digit(b: u8) -> bool {
    48 <= b <= 57
}

/// Whether `b` is an ASCII letter.
pub open spec fn is_alpha(b: u8) -> bool {
    65 <= b <= 90 || 97 <= b <= 122
}

/// Whether `b` is an ASCII letter or a decimal digit.
pub open spec fn is_alnum(b: u8) -> bool {
    is_alpha(b) || is_digit(b)
}

/// Whether `b` is a hexadecimal digit.
pub open spec fn is_hex_digit(b: u8) -> bool {
    is_digit(b) || 65 <= b <= 70 || 97 <= b <= 102
}

/// Whether `b` is a space or a horizontal tab.
pub open spec fn is_wsp(b: u8) -> bool {
    b == 32 || b == 9
}

/// Whether `b` is ASCII white space: tab, line feed, vertical tab, form
/// feed, carriage return or space.
pub open spec fn is_ascii_space(b: u8) -> bool {
    9 <= b <= 13 || b == 32
}

/// `b` with an upper-case ASCII letter turned into its lower-case form.
pub open spec fn fold(b: u8) -> u8 {
    if 65 <= b <= 90 {
        (b + 32) as u8
    } else {
        b
    }
}

/// Whether every byte of `s` is below 128.
pub open spec fn is_ascii(s: Seq<u8>) -> bool {
    forall|i: int| 0 <= i < s.len() ==> #[trigger] s[i] < 128
}

/// Whether `s` holds the byte `b` at position `i`.
pub open spec fn byte_at(s: Seq<u8>, i: int, b: u8) -> bool {
    0 <= i < s.len() && s[i] == b
}

/// Whether `tail` stands at the end of `s`.
pub open spec fn ends_with(s: Seq<u8>, tail: Seq<u8>) -> bool {
    tail.len() <= s.len() && s.subrange(s.len() - tail.len(), s.len() as int) == tail
}

/// A position as a mathematical integer.
pub open spec fn to_int(r: Option<usize>) -> Option<int> {
    match r {
        Some(e) => Some(e as int),
        None => None,
    }
}

/// A triple of positions as mathematical integers.
pub open spec fn to_int3(r: Option<(usize, usize, usize)>) -> Option<(int, int, int)> {
    match r {
        Some((a, b, c)) => Some((a as int, b as int, c as int)),
        None => None,
    }
}

/// The sets of bytes that the grammars name.
#[derive(Clone, Copy, PartialEq, Eq, Debug)]
pub enum Class {
    /// `0`-`9`.
    Digit,
    /// `0`-`9`, `a`-`f`, `A`-`F`.
    HexDigit,
    /// Letters and digits.
    Alnum,
    /// Letters, digits and the hyphen.
    Ldh,
    /// `atext`: what an atom is made of.
    Atext,
    /// `dcontent` of a general address literal: 33-90 and 94-126.
    Dcontent,
    /// The bytes of an ESMTP parameter value: 33-60 and 62-126.
    EsmtpValue,
    /// White space that may end a command line: space, tab, form feed.
    Blank,
    /// Space and horizontal tab.
    Wsp,
    /// `ftext`: the bytes of a field name, 33-57 and 59-126.
    Ftext,
    /// ASCII white space: tab, line feed, vertical tab, form feed,
    /// carriage return and space.
    Space,
    /// The bytes that folding is made of: space, tab, carriage return and
    /// line feed.
    Fold,
}

/// Whether `b` is `atext`: a letter, a digit, or one of
/// ``! # $ % & ' * + - / = ? ^ _ ` { | } ~``.
pub open spec fn spec_is_atext(b: u8) -> bool {
    is_alnum(b) || b == 33 || (35 <= b <= 39) || b == 42 || b == 43 || b == 45 || b == 47 || b
        == 61 || b == 63 || (94 <= b <= 96) || (123 <= b <= 126)
}

impl Class {
    /// Whether `b` belongs to the class.
    pub open spec fn has(self, b: u8) -> bool {
        match self {
            Class::Digit => is_digit(b),
            Class::HexDigit => is_hex_digit(b),
            Class::Alnum => is_alnum(b),
            Class::Ldh => is_alnum(b) || b == 45,
            Class::Atext => spec_is_atext(b),
            Class::Dcontent => 33 <= b <= 90 || 94 <= b <= 126,
            Class::EsmtpValue => 33 <= b <= 60 || 62 <= b <= 126,
            Class::Blank => b == 32 || b == 9 || b == 12,
            Class::Wsp => is_wsp(b),
            Class::Ftext => 33 <= b <= 57 || 59 <= b <= 126,
            Class::Space => is_ascii_space(b),
            Class::Fold => b == 32 || b == 9 || b == 13 || b == 10,
        }
    }

    /// Whether `b` belongs to the class.
    pub fn contains(self, b: u8) -> (r: bool)
        ensures
            r == self.has(b),
            r ==> b < 128,
    {
        match self {
            Class::Digit => digit(b),
            Class::HexDigit => digit(b) || (65 <= b && b <= 70) || (97 <= b && b <= 102),
            Class::Alnum => alnum(b),
            Class::Ldh => alnum(b) || b == 45,
            Class::Atext => alnum(b) || b == 33 || (35 <= b && b <= 39) || b == 42 || b == 43
                || b == 45 || b == 47 || b == 61 || b == 63 || (94 <= b && b <= 96) || (123 <= b
                && b <= 126),
            Class::Dcontent => (33 <= b && b <= 90) || (94 <= b && b <= 126),
            Class::EsmtpValue => (33 <= b && b <= 60) || (62 <= b && b <= 126),
            Class::Blank => b == 32 || b == 9 || b == 12,
            Class::Wsp => b == 32 || b == 9,
            Class::Ftext => (33 <= b && b <= 57) || (59 <= b && b <= 126),
            Class::Space => (9 <= b && b <= 13) || b == 32,
            Class::Fold => b == 32 || b == 9 || b == 13 || b == 10,
        }
    }
}

/// Whether `b` is a decimal digit.
pub fn digit(b: u8) -> (r: bool)
    ensures
        r == is_digit(b),
{
    48 <= b && b <= 57
}

/// Whether `b` is an ASCII letter or a decimal digit.
pub fn alnum(b: u8) -> (r: bool)
    ensures
        r == is_alnum(b),
{
    (65 <= b && b <= 90) || (97 <= b && b <= 122) || (48 <= b && b <= 57)
}

/// `b` with an upper-case ASCII letter turned into its lower-case form.
pub fn to_lower(b: u8) -> (r: u8)
    ensures
        r == fold(b),
{
    if 65 <= b && b <= 90 {
        b + 32
    } else {
        b
    }
}

/// The end of the longest run of bytes of class `c` that starts at `i`.
pub open spec fn span(s: Seq<u8>, i: int, c: Class) -> int
    decreases s.len() - i,
{
    if 0 <= i < s.len() && c.has(s[i]) {
        span(s, i + 1, c)
    } else {
        i
    }
}

/// The end of the longest run of at most `max` bytes of class `c` that
/// starts at `i`.
pub open spec fn span_upto(s: Seq<u8>, i: int, c: Class, max: nat) -> int
    decreases max,
{
    if max > 0 && 0 <= i < s.len() && c.has(s[i]) {
        span_upto(s, i + 1, c, (max - 1) as nat)
    } else {
        i
    }
}

/// A run ends at or after its start and within the sequence, and holds
/// bytes of its class only.
pub proof fn lemma_span(s: Seq<u8>, i: int, c: Class)
    requires
        0 <= i <= s.len(),
    ensures
        i <= span(s, i, c) <= s.len(),
        forall|k: int| i <= k < span(s, i, c) ==> c.has(#[trigger] s[k]),
        span(s, i, c) < s.len() ==> !c.has(s[span(s, i, c)]),
    decreases s.len() - i,
{
    if i < s.len() && c.has(s[i]) {
        lemma_span(s, i + 1, c);
    }
}

/// Scans the longest run of bytes of class `c` from `i`.
pub fn scan(s: &[u8], i: usize, c: Class) -> (e: usize)
    requires
        i <= s.len(),
    ensures
        e == span(s@, i as int, c),
        i <= e <= s.len(),
        forall|k: int| i <= k < e ==> c.has(#[trigger] s@[k]) && s@[k] < 128,
        e < s.len() ==> !c.has(s@[e as int]),
{
    let mut e: usize = i;
    while e < s.len() && c.contains(s[e])
        invariant
            i <= e <= s.len(),
            span(s@, i as int, c) == span(s@, e as int, c),
            forall|k: int| i <= k < e ==> c.has(#[trigger] s@[k]) && s@[k] < 128,
        decreases s.len() - e,
    {
        e = e + 1;
    }
    e
}

/// Scans the longest run of at most `max` bytes of class `c` from `i`.
pub fn scan_upto(s: &[u8], i: usize, c: Class, max: usize) -> (e: usize)
    requires
        i <= s.len(),
    ensures
        e == span_upto(s@, i as int, c, max as nat),
        i <= e <= s.len(),
        e - i <= max,
        forall|k: int| i <= k < e ==> c.has(#[trigger] s@[k]) && s@[k] < 128,
        e - i < max && e < s.len() ==> !c.has(s@[e as int]),
{
    let mut e: usize = i;
    let mut left: usize = max;
    while left > 0 && e < s.len() && c.contains(s[e])
        invariant
            i <= e <= s.len(),
            left <= max,
            e - i == max - left,
            span_upto(s@, i as int, c, max as nat) == span_upto(s@, e as int, c, left as nat),
            forall|k: int| i <= k < e ==> c.has(#[trigger] s@[k]) && s@[k] < 128,
        decreases left,
    {
        e = e + 1;
        left = left - 1;
    }
    e
}

/// The start of the longest run of bytes of class `c` that ends at `e` and
/// does not reach below `i`.
pub open spec fn span_back(s: Seq<u8>, i: int, e: int, c: Class) -> int
    decreases e - i,
{
    if i < e <= s.len() && c.has(s[e - 1]) {
        span_back(s, i, e - 1, c)
    } else {
        e
    }
}

/// Scans backwards from `e` the longest run of bytes of class `c`, down to
/// `i` at most.
pub fn scan_back(s: &[u8], i: usize, e: usize, c: Class) -> (r: usize)
    requires
        i <= e <= s.len(),
    ensures
        r == span_back(s@, i as int, e as int, c),
        i <= r <= e,
        r > i ==> !c.has(s@[r - 1]),
{
    let mut r: usize = e;
    while r > i && c.contains(s[r - 1])
        invariant
            i <= r <= e <= s.len(),
            span_back(s@, i as int, e as int, c) == span_back(s@, i as int, r as int, c),
        decreases r - i,
    {
        r = r - 1;
    }
    r
}

/// Whether `s` holds the byte `b` at position `i`.
pub fn has_byte(s: &[u8], i: usize, b: u8) -> (r: bool)
    ensures
        r == byte_at(s@, i as int, b),
{
    i < s.len() && s[i] == b
}

/// Whether `tail` stands at the end of `s`.
pub fn slice_ends_with(s: &[u8], tail: &[u8]) -> (r: bool)
    ensures
        r == ends_with(s@, tail@),
{
    if tail.len() > s.len() {
        return false;
    }
    let base: usize = s.len() - tail.len();
    let mut k: usize = 0;
    while k < tail.len()
        invariant
            0 <= k <= tail.len(),
            base + tail.len() == s.len(),
            forall|j: int| 0 <= j < k ==> s@[base + j] == tail@[j],
        decreases tail.len() - k,
    {
        if s[base + k] != tail[k] {
            proof {
                assert(s@.subrange(base as int, s@.len() as int)[k as int] == s@[base + k]);
            }
            return false;
        }
        k = k + 1;
    }
    proof {
        assert(s@.subrange(base as int, s@.len() as int) =~= tail@);
    }
    true
}

/// `std::str::from_utf8`, which reads a byte slice as a string slice. It
/// succeeds on the slices that are valid UTF-8 and on no others, and the
/// string that it returns is laid out in exactly the bytes given.
#[verifier::external_body]
fn str_from_utf8(bytes: &[u8]) -> (r: Option<&str>)
    ensures
        r is Some <==> valid_utf8(bytes@),
        r matches Some(s) ==> s.spec_bytes() == bytes@,
{
    std::str::from_utf8(bytes).ok()
}

/// A sequence of ASCII bytes is valid UTF-8.
pub proof fn lemma_ascii_is_utf8(s: Seq<u8>)
    requires
        is_ascii(s),
    ensures
        valid_utf8(s),
{
    assert forall|i: int| 0 <= i < s.len() implies #[trigger] vstd::utf8::is_leading_byte_width_1(
        s[i],
    ) by {
        let b = s[i];
        assert(b < 128);
        assert(b & 0x80 == 0) by (bit_vector)
            requires
                b < 128,
        ;
    }
    assert(s.subrange(0, 0) =~= Seq::<u8>::empty());
    assert(vstd::utf8::partial_valid_utf8(s, 0));
    vstd::utf8::partial_valid_utf8_extend_ascii_block(s, 0, s.len() as int);
    assert(s.subrange(0, s.len() as int) =~= s);
}

/// The string slice whose bytes are the ASCII bytes given.
pub(crate) fn ascii_str(bytes: &[u8]) -> (r: &str)
    requires
        is_ascii(bytes@),
    ensures
        r.spec_bytes() == bytes@,
{
    proof {
        lemma_ascii_is_utf8(bytes@);
    }
    match str_from_utf8(bytes) {
        Some(s) => s,
        None => "",
    }
}

/// The string whose bytes are `bytes[from..to]`, which are ASCII.
pub(crate) fn ascii_string(bytes: &[u8], from: usize, to: usize) -> (r: String)
    requires
        from <= to <= bytes.len(),
        is_ascii(bytes@.subrange(from as int, to as int)),
    ensures
        encode_utf8(r@) == bytes@.subrange(from as int, to as int),
{
    let part = slice_subrange(bytes, from, to);
    let s = ascii_str(part);
    s.to_owned()
}

/// Two strings are equal exactly if their bytes are.
pub proof fn lemma_utf8_injective(a: Seq<char>, b: Seq<char>)
    ensures
        (encode_utf8(a) == encode_utf8(b)) <==> (a == b),
{
    vstd::utf8::encode_utf8_decode_utf8(a);
    vstd::utf8::encode_utf8_decode_utf8(b);
}

} // verus!
