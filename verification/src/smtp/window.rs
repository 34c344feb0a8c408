//! Address literals in context.
//!
//! No rule of an address literal reads past a closing bracket. So two
//! byte sequences that hold the same text up to and with a closing
//! bracket give the same match for every such rule, at every position of
//! that text.

use vstd::prelude::*;
use crate::bytes::{byte_at, span, span_upto, Class};
use crate::smtp::context::{lemma_same_part, lemma_strip_same, same};
use crate::smtp::grammar::{
    address_literal, closed, dot_snum, general_literal, group_colons, groups, hex_group, ipv4,
    ipv6_addr, ipv6_comp, ipv6_full, ipv6_tag, ipv6v4_comp, ipv6v4_full, more_groups,
    optional_groups, snum, strip_hyphens,
};

verus! {

/// Whether `t` holds from `j` the `w` bytes that `s` holds from `i`, and
/// after them both hold a closing bracket.
pub open spec fn window(s: Seq<u8>, i: int, t: Seq<u8>, j: int, w: int) -> bool {
    0 <= w && same(s, i, t, j, w + 1) && s[i + w] == 93
}

/// A position moved by `d`.
pub open spec fn shift(r: Option<int>, d: int) -> Option<int> {
    match r {
        Some(e) => Some(e + d),
        None => None,
    }
}

/// A position and a count, the position moved by `d`.
pub open spec fn shift2(r: (int, nat), d: int) -> (int, nat) {
    (r.0 + d, r.1)
}

/// Whether `c` is a class of which address literals are made: one that
/// does not hold the closing bracket.
pub open spec fn inner(c: Class) -> bool {
    c == Class::Digit || c == Class::HexDigit || c == Class::Ldh || c == Class::Dcontent
}

/// The bytes at a position of the window are the same.
pub proof fn lemma_window_byte(s: Seq<u8>, i: int, t: Seq<u8>, j: int, w: int, a: int)
    requires
        window(s, i, t, j, w),
        i <= a <= i + w,
    ensures
        0 <= a < s.len(),
        0 <= a - i + j < t.len(),
        s[a] == t[a - i + j],
        t[j + w] == 93,
{
    assert(s[a] == t[a - i + j]);
    assert(s[i + w] == t[i + w - i + j]);
}

/// A run within the window is the same run in both sequences.
pub proof fn lemma_span_window(s: Seq<u8>, i: int, t: Seq<u8>, j: int, w: int, a: int, c: Class)
    requires
        window(s, i, t, j, w),
        i <= a <= i + w,
        inner(c),
    ensures
        span(t, a - i + j, c) == span(s, a, c) - i + j,
        a <= span(s, a, c) <= i + w,
    decreases i + w - a,
{
    lemma_window_byte(s, i, t, j, w, a);
    if c.has(s[a]) {
        lemma_span_window(s, i, t, j, w, a + 1, c);
    }
}

/// A run within the window is the same run in both sequences.
pub proof fn lemma_span_upto_window(
    s: Seq<u8>,
    i: int,
    t: Seq<u8>,
    j: int,
    w: int,
    a: int,
    c: Class,
    max: nat,
)
    requires
        window(s, i, t, j, w),
        i <= a <= i + w,
        inner(c),
    ensures
        span_upto(t, a - i + j, c, max) == span_upto(s, a, c, max) - i + j,
        a <= span_upto(s, a, c, max) <= i + w,
    decreases max,
{
    lemma_window_byte(s, i, t, j, w, a);
    if max > 0 && c.has(s[a]) {
        lemma_span_upto_window(s, i, t, j, w, a + 1, c, (max - 1) as nat);
    }
}

/// The rule [`snum`] matches alike in both sequences of a window.
pub proof fn lemma_snum_window(s: Seq<u8>, i: int, t: Seq<u8>, j: int, w: int, a: int)
    requires
        window(s, i, t, j, w),
        i <= a <= i + w,
    ensures
        snum(t, a - i + j) == shift(snum(s, a), j - i),
        snum(s, a) matches Some(e) ==> a < e <= i + w,
{
    lemma_span_upto_window(s, i, t, j, w, a, Class::Digit, 3);
}

/// The rule [`dot_snum`] matches alike in both sequences of a window.
pub proof fn lemma_dot_snum_window(s: Seq<u8>, i: int, t: Seq<u8>, j: int, w: int, a: int)
    requires
        window(s, i, t, j, w),
        i <= a <= i + w,
    ensures
        dot_snum(t, a - i + j) == shift(dot_snum(s, a), j - i),
        dot_snum(s, a) matches Some(e) ==> a < e <= i + w,
{
    lemma_window_byte(s, i, t, j, w, a);
    if byte_at(s, a, 46) {
        lemma_snum_window(s, i, t, j, w, a + 1);
    }
}

/// The rule [`ipv4`] matches alike in both sequences of a window.
pub proof fn lemma_ipv4_window(s: Seq<u8>, i: int, t: Seq<u8>, j: int, w: int, a: int)
    requires
        window(s, i, t, j, w),
        i <= a <= i + w,
    ensures
        ipv4(t, a - i + j) == shift(ipv4(s, a), j - i),
        ipv4(s, a) matches Some(e) ==> a < e <= i + w,
{
    lemma_snum_window(s, i, t, j, w, a);
    match snum(s, a) {
        Some(b) => {
            lemma_dot_snum_window(s, i, t, j, w, b);
            match dot_snum(s, b) {
                Some(c) => {
                    lemma_dot_snum_window(s, i, t, j, w, c);
                    match dot_snum(s, c) {
                        Some(d) => {
                            lemma_dot_snum_window(s, i, t, j, w, d);
                        },
                        None => {},
                    }
                },
                None => {},
            }
        },
        None => {},
    }
}

/// The rule [`hex_group`] matches alike in both sequences of a window.
pub proof fn lemma_hex_group_window(s: Seq<u8>, i: int, t: Seq<u8>, j: int, w: int, a: int)
    requires
        window(s, i, t, j, w),
        i <= a <= i + w,
    ensures
        hex_group(t, a - i + j) == shift(hex_group(s, a), j - i),
        hex_group(s, a) matches Some(e) ==> a < e <= i + w,
{
    lemma_span_upto_window(s, i, t, j, w, a, Class::HexDigit, 4);
}

/// The rule [`more_groups`] matches alike in both sequences of a window.
pub proof fn lemma_more_groups_window(
    s: Seq<u8>,
    i: int,
    t: Seq<u8>,
    j: int,
    w: int,
    a: int,
    n: nat,
    max: nat,
)
    requires
        window(s, i, t, j, w),
        i <= a <= i + w,
    ensures
        more_groups(t, a - i + j, n, max) == shift2(more_groups(s, a, n, max), j - i),
        a <= more_groups(s, a, n, max).0 <= i + w,
    decreases max - n,
{
    lemma_window_byte(s, i, t, j, w, a);
    if n < max && byte_at(s, a, 58) {
        lemma_hex_group_window(s, i, t, j, w, a + 1);
        match hex_group(s, a + 1) {
            Some(e) => {
                lemma_more_groups_window(s, i, t, j, w, e, n + 1, max);
            },
            None => {},
        }
    }
}

/// An optional list of groups in the window.
pub proof fn lemma_groups_window(
    s: Seq<u8>,
    i: int,
    t: Seq<u8>,
    j: int,
    w: int,
    a: int,
    max: nat,
)
    requires
        window(s, i, t, j, w),
        i <= a <= i + w,
    ensures
        groups(t, a - i + j, max) == match groups(s, a, max) {
            Some(r) => Some(shift2(r, j - i)),
            None => None,
        },
        groups(s, a, max) matches Some(r) ==> a < r.0 <= i + w,
        optional_groups(t, a - i + j, max) == optional_groups(s, a, max) - i + j,
        a <= optional_groups(s, a, max) <= i + w,
{
    lemma_hex_group_window(s, i, t, j, w, a);
    match hex_group(s, a) {
        Some(e) => {
            lemma_more_groups_window(s, i, t, j, w, e, 1, max);
        },
        None => {},
    }
}

/// The rule [`group_colons`] matches alike in both sequences of a window.
pub proof fn lemma_group_colons_window(
    s: Seq<u8>,
    i: int,
    t: Seq<u8>,
    j: int,
    w: int,
    a: int,
    n: nat,
    max: nat,
)
    requires
        window(s, i, t, j, w),
        i <= a <= i + w,
    ensures
        group_colons(t, a - i + j, n, max) == shift2(group_colons(s, a, n, max), j - i),
        a <= group_colons(s, a, n, max).0 <= i + w,
    decreases max - n,
{
    if n < max {
        lemma_hex_group_window(s, i, t, j, w, a);
        match hex_group(s, a) {
            Some(e) => {
                lemma_window_byte(s, i, t, j, w, e);
                if byte_at(s, e, 58) {
                    lemma_group_colons_window(s, i, t, j, w, e + 1, n + 1, max);
                }
            },
            None => {},
        }
    }
}

/// The rule [`ipv6_full`] matches alike in both sequences of a window.
pub proof fn lemma_ipv6_full_window(s: Seq<u8>, i: int, t: Seq<u8>, j: int, w: int, a: int)
    requires
        window(s, i, t, j, w),
        i <= a <= i + w,
    ensures
        ipv6_full(t, a - i + j) == shift(ipv6_full(s, a), j - i),
        ipv6_full(s, a) matches Some(e) ==> a < e <= i + w,
{
    lemma_groups_window(s, i, t, j, w, a, 8);
}

/// The rule [`ipv6_comp`] matches alike in both sequences of a window.
pub proof fn lemma_ipv6_comp_window(s: Seq<u8>, i: int, t: Seq<u8>, j: int, w: int, a: int)
    requires
        window(s, i, t, j, w),
        i <= a <= i + w,
    ensures
        ipv6_comp(t, a - i + j) == shift(ipv6_comp(s, a), j - i),
        ipv6_comp(s, a) matches Some(e) ==> a < e <= i + w,
{
    lemma_groups_window(s, i, t, j, w, a, 6);
    let b = optional_groups(s, a, 6);
    lemma_window_byte(s, i, t, j, w, b);
    if byte_at(s, b, 58) {
        lemma_window_byte(s, i, t, j, w, b + 1);
        if byte_at(s, b + 1, 58) {
            lemma_groups_window(s, i, t, j, w, b + 2, 6);
        }
    }
}

/// The rule [`ipv6v4_full`] matches alike in both sequences of a window.
pub proof fn lemma_ipv6v4_full_window(s: Seq<u8>, i: int, t: Seq<u8>, j: int, w: int, a: int)
    requires
        window(s, i, t, j, w),
        i <= a <= i + w,
    ensures
        ipv6v4_full(t, a - i + j) == shift(ipv6v4_full(s, a), j - i),
        ipv6v4_full(s, a) matches Some(e) ==> a < e <= i + w,
{
    lemma_group_colons_window(s, i, t, j, w, a, 0, 6);
    lemma_ipv4_window(s, i, t, j, w, group_colons(s, a, 0, 6).0);
}

/// The rule [`ipv6v4_comp`] matches alike in both sequences of a window.
pub proof fn lemma_ipv6v4_comp_window(s: Seq<u8>, i: int, t: Seq<u8>, j: int, w: int, a: int)
    requires
        window(s, i, t, j, w),
        i <= a <= i + w,
    ensures
        ipv6v4_comp(t, a - i + j) == shift(ipv6v4_comp(s, a), j - i),
        ipv6v4_comp(s, a) matches Some(e) ==> a < e <= i + w,
{
    lemma_groups_window(s, i, t, j, w, a, 4);
    let b = optional_groups(s, a, 4);
    lemma_window_byte(s, i, t, j, w, b);
    if byte_at(s, b, 58) {
        lemma_window_byte(s, i, t, j, w, b + 1);
        if byte_at(s, b + 1, 58) {
            lemma_group_colons_window(s, i, t, j, w, b + 2, 0, 4);
            lemma_ipv4_window(s, i, t, j, w, group_colons(s, b + 2, 0, 4).0);
        }
    }
}

/// A match within the window is closed in the one sequence exactly if it
/// is in the other.
pub proof fn lemma_closed_window(
    s: Seq<u8>,
    i: int,
    t: Seq<u8>,
    j: int,
    w: int,
    r: Option<int>,
)
    requires
        window(s, i, t, j, w),
        r matches Some(e) ==> i <= e <= i + w,
    ensures
        closed(t, shift(r, j - i)) == closed(s, r),
{
    match r {
        Some(e) => {
            lemma_window_byte(s, i, t, j, w, e);
        },
        None => {},
    }
}

/// The rule [`ipv6_addr`] matches alike in both sequences of a window.
pub proof fn lemma_ipv6_addr_window(s: Seq<u8>, i: int, t: Seq<u8>, j: int, w: int, a: int)
    requires
        window(s, i, t, j, w),
        i <= a <= i + w,
    ensures
        ipv6_addr(t, a - i + j) == shift(ipv6_addr(s, a), j - i),
        ipv6_addr(s, a) matches Some(e) ==> a < e <= i + w && s[e] == 93,
{
    lemma_ipv6_full_window(s, i, t, j, w, a);
    lemma_ipv6_comp_window(s, i, t, j, w, a);
    lemma_ipv6v4_full_window(s, i, t, j, w, a);
    lemma_ipv6v4_comp_window(s, i, t, j, w, a);
    lemma_closed_window(s, i, t, j, w, ipv6_full(s, a));
    lemma_closed_window(s, i, t, j, w, ipv6_comp(s, a));
    lemma_closed_window(s, i, t, j, w, ipv6v4_full(s, a));
    lemma_closed_window(s, i, t, j, w, ipv6v4_comp(s, a));
}

/// The rule [`general_literal`] matches alike in both sequences of a window.
pub proof fn lemma_general_literal_window(
    s: Seq<u8>,
    i: int,
    t: Seq<u8>,
    j: int,
    w: int,
    a: int,
)
    requires
        window(s, i, t, j, w),
        i <= a <= i + w,
    ensures
        general_literal(t, a - i + j) == shift(general_literal(s, a), j - i),
        general_literal(s, a) matches Some(e) ==> a < e <= i + w,
{
    lemma_span_window(s, i, t, j, w, a, Class::Ldh);
    let run = span(s, a, Class::Ldh);
    lemma_same_part(s, i, t, j, w + 1, a - i, run - a);
    lemma_strip_same(s, a, t, a - i + j, run - a);
    crate::smtp::context::lemma_strip_bounds(s, a, run);
    let tag = strip_hyphens(s, a, run);
    lemma_window_byte(s, i, t, j, w, tag);
    if tag > a && byte_at(s, tag, 58) {
        lemma_span_window(s, i, t, j, w, tag + 1, Class::Dcontent);
    }
}

/// The letters of `IPv6:` stand in the one sequence exactly if they
/// stand in the other.
pub proof fn lemma_ipv6_tag_window(s: Seq<u8>, i: int, t: Seq<u8>, j: int, w: int, a: int)
    requires
        window(s, i, t, j, w),
        i <= a <= i + w,
    ensures
        ipv6_tag(t, a - i + j) == ipv6_tag(s, a),
        ipv6_tag(s, a) ==> a + 5 <= i + w,
{
    lemma_window_byte(s, i, t, j, w, a);
    if a + 1 <= i + w {
        lemma_window_byte(s, i, t, j, w, a + 1);
    }
    if a + 2 <= i + w {
        lemma_window_byte(s, i, t, j, w, a + 2);
    }
    if a + 3 <= i + w {
        lemma_window_byte(s, i, t, j, w, a + 3);
    }
    if a + 4 <= i + w {
        lemma_window_byte(s, i, t, j, w, a + 4);
    }
}

/// The first form of an address literal: an IPv4 address up to the
/// bracket.
pub open spec fn literal_v4(s: Seq<u8>, i: int) -> Option<int> {
    if closed(s, ipv4(s, i + 1)) {
        ipv4(s, i + 1)
    } else {
        None
    }
}

/// The second form of an address literal: `IPv6:` and an IPv6 address up
/// to the bracket.
pub open spec fn literal_v6(s: Seq<u8>, i: int) -> Option<int> {
    if ipv6_tag(s, i + 1) {
        ipv6_addr(s, i + 6)
    } else {
        None
    }
}

/// The third form of an address literal: a general literal up to the
/// bracket.
pub open spec fn literal_general(s: Seq<u8>, i: int) -> Option<int> {
    if closed(s, general_literal(s, i + 1)) {
        general_literal(s, i + 1)
    } else {
        None
    }
}

/// An address literal is the first of its three forms that matches.
pub proof fn lemma_address_literal_forms(s: Seq<u8>, i: int)
    ensures
        address_literal(s, i) == if !byte_at(s, i, 91) {
            None
        } else if literal_v4(s, i) is Some {
            Some((i + 1, literal_v4(s, i).unwrap(), literal_v4(s, i).unwrap() + 1))
        } else if literal_v6(s, i) is Some {
            Some((i + 6, literal_v6(s, i).unwrap(), literal_v6(s, i).unwrap() + 1))
        } else if literal_general(s, i) is Some {
            Some((i + 1, literal_general(s, i).unwrap(), literal_general(s, i).unwrap() + 1))
        } else {
            None
        },
{
}

proof fn lemma_literal_v4_window(s: Seq<u8>, i: int, t: Seq<u8>, j: int, w: int)
    requires
        window(s, i, t, j, w),
        byte_at(s, i, 91),
    ensures
        literal_v4(t, j) == shift(literal_v4(s, i), j - i),
        literal_v4(s, i) matches Some(e) ==> i + 1 < e <= i + w && s[e] == 93,
{
    lemma_ipv4_window(s, i, t, j, w, i + 1);
    lemma_closed_window(s, i, t, j, w, ipv4(s, i + 1));
}

proof fn lemma_literal_v6_window(s: Seq<u8>, i: int, t: Seq<u8>, j: int, w: int)
    requires
        window(s, i, t, j, w),
        byte_at(s, i, 91),
    ensures
        literal_v6(t, j) == shift(literal_v6(s, i), j - i),
        literal_v6(s, i) matches Some(e) ==> i + 6 < e <= i + w && s[e] == 93,
{
    lemma_ipv6_tag_window(s, i, t, j, w, i + 1);
    if ipv6_tag(s, i + 1) {
        lemma_ipv6_addr_window(s, i, t, j, w, i + 6);
    }
}

proof fn lemma_literal_general_window(s: Seq<u8>, i: int, t: Seq<u8>, j: int, w: int)
    requires
        window(s, i, t, j, w),
        byte_at(s, i, 91),
    ensures
        literal_general(t, j) == shift(literal_general(s, i), j - i),
        literal_general(s, i) matches Some(e) ==> i + 1 < e <= i + w && s[e] == 93,
{
    lemma_general_literal_window(s, i, t, j, w, i + 1);
    lemma_closed_window(s, i, t, j, w, general_literal(s, i + 1));
}

/// An address literal is the same literal wherever the same bytes stand
/// up to and with a closing bracket.
pub proof fn lemma_address_literal_window(s: Seq<u8>, i: int, t: Seq<u8>, j: int, w: int)
    requires
        window(s, i, t, j, w),
    ensures
        address_literal(t, j) == match address_literal(s, i) {
            Some((a, b, n)) => Some((a - i + j, b - i + j, n - i + j)),
            None => None,
        },
        address_literal(s, i) matches Some((a, b, n)) ==> i < a < b < n <= i + w + 1 && s[b]
            == 93 && n == b + 1,
{
    lemma_window_byte(s, i, t, j, w, i);
    lemma_address_literal_forms(s, i);
    lemma_address_literal_forms(t, j);
    if byte_at(s, i, 91) {
        lemma_literal_v4_window(s, i, t, j, w);
        lemma_literal_v6_window(s, i, t, j, w);
        lemma_literal_general_window(s, i, t, j, w);
    }
}

proof fn lemma_more_groups_bounds(s: Seq<u8>, a: int, n: nat, max: nat)
    ensures
        a <= more_groups(s, a, n, max).0,
    decreases max - n,
{
    if n < max && byte_at(s, a, 58) {
        match hex_group(s, a + 1) {
            Some(e) => {
                lemma_more_groups_bounds(s, e, n + 1, max);
            },
            None => {},
        }
    }
}

proof fn lemma_group_colons_bounds(s: Seq<u8>, a: int, n: nat, max: nat)
    ensures
        a <= group_colons(s, a, n, max).0,
    decreases max - n,
{
    if n < max {
        match hex_group(s, a) {
            Some(e) => {
                if byte_at(s, e, 58) {
                    lemma_group_colons_bounds(s, e + 1, n + 1, max);
                }
            },
            None => {},
        }
    }
}

proof fn lemma_optional_groups_bounds(s: Seq<u8>, a: int, max: nat)
    ensures
        a <= optional_groups(s, a, max),
{
    match hex_group(s, a) {
        Some(e) => {
            lemma_more_groups_bounds(s, e, 1, max);
        },
        None => {},
    }
}

/// An IPv6 address up to the bracket ends after its start, at a closing
/// bracket.
pub proof fn lemma_ipv6_addr_ends(s: Seq<u8>, a: int)
    ensures
        ipv6_addr(s, a) matches Some(e) ==> a < e < s.len() && s[e] == 93,
{
    lemma_optional_groups_bounds(s, a, 8);
    lemma_optional_groups_bounds(s, a, 6);
    lemma_optional_groups_bounds(s, a, 4);
    lemma_optional_groups_bounds(s, optional_groups(s, a, 6) + 2, 6);
    lemma_group_colons_bounds(s, a, 0, 6);
    lemma_group_colons_bounds(s, optional_groups(s, a, 4) + 2, 0, 4);
}

proof fn lemma_general_literal_bounds(s: Seq<u8>, a: int)
    ensures
        general_literal(s, a) matches Some(e) ==> a < e,
{
}

/// The text of an address literal lies within its brackets, and the
/// closing bracket stands right after it.
pub proof fn lemma_address_literal_bounds(s: Seq<u8>, i: int)
    ensures
        address_literal(s, i) matches Some((a, b, n)) ==> 0 <= i < a < b < s.len() && s[b] == 93
            && n == b + 1 && s[i] == 91,
{
    lemma_address_literal_forms(s, i);
    if byte_at(s, i, 91) {
        lemma_ipv6_addr_ends(s, i + 6);
        lemma_general_literal_bounds(s, i + 1);
    }
}

} // verus!
