//! The grammar of SMTP command arguments (RFC 5321, section 4.1.2).
//!
//! Each rule is a spec function over a byte sequence and a position. It
//! gives the position after the longest text that the rule matches there,
//! or `None` where nothing matches. Beside each rule stands the executable
//! matcher, which is proved to compute exactly that.

use vstd::prelude::*;
use crate::bytes::{
    alnum, byte_at, fold, has_byte, is_alnum, scan, scan_upto, span, span_upto, to_int, to_int3,
    to_lower, Class,
};

verus! {

/// Whether every byte of `s` from `i` up to `e` is below 128.
pub open spec fn ascii_between(s: Seq<u8>, i: int, e: int) -> bool {
    forall|k: int| i <= k < e ==> #[trigger] s[k] < 128
}

/// Whether a position `e` that a rule gave lies after `i` and within `s`.
pub open spec fn advances(s: Seq<u8>, i: int, e: int) -> bool {
    0 <= i < e <= s.len()
}

/// Whether `s` holds at `i` the letter whose lower-case form is `b`.
pub open spec fn letter_at(s: Seq<u8>, i: int, b: u8) -> bool {
    0 <= i < s.len() && fold(s[i]) == b
}

/// Whether `ch` is `atext`.
pub fn is_atext(ch: u8) -> (r: bool)
    ensures
        r == Class::Atext.has(ch),
{
    Class::Atext.contains(ch)
}

/// Whether `ch` is `dcontent`: 33-90 or 94-126.
pub fn is_dcontent(ch: u8) -> (r: bool)
    ensures
        r == Class::Dcontent.has(ch),
{
    Class::Dcontent.contains(ch)
}

/// Whether `s` holds at `i` the letter whose lower-case form is `b`.
fn has_letter(s: &[u8], i: usize, b: u8) -> (r: bool)
    ensures
        r == letter_at(s@, i as int, b),
{
    i < s.len() && to_lower(s[i]) == b
}

/// `e` without the hyphens that stand directly before it, down to `i`.
pub open spec fn strip_hyphens(s: Seq<u8>, i: int, e: int) -> int
    decreases e - i,
{
    if i < e <= s.len() && s[e - 1] == 45 {
        strip_hyphens(s, i, e - 1)
    } else {
        e
    }
}

fn drop_hyphens(s: &[u8], i: usize, e: usize) -> (r: usize)
    requires
        i <= e <= s.len(),
    ensures
        r == strip_hyphens(s@, i as int, e as int),
        i <= r <= e,
        r > i ==> s@[r - 1] != 45,
        i < e && s@[i as int] != 45 ==> i < r,
{
    let mut r: usize = e;
    while r > i && s[r - 1] == 45
        invariant
            i <= r <= e <= s.len(),
            strip_hyphens(s@, i as int, e as int) == strip_hyphens(s@, i as int, r as int),
            i < e && s@[i as int] != 45 ==> i < r,
        decreases r - i,
    {
        r = r - 1;
    }
    r
}

/// `Atom = 1*atext`
pub open spec fn atom(s: Seq<u8>, i: int) -> Option<int> {
    let e = span(s, i, Class::Atext);
    if e > i {
        Some(e)
    } else {
        None
    }
}

/// Matches the rule [`atom`] at `i`.
pub fn match_atom(s: &[u8], i: usize) -> (r: Option<usize>)
    requires
        i <= s.len(),
    ensures
        to_int(r) == atom(s@, i as int),
        r matches Some(e) ==> i < e <= s.len() && ascii_between(s@, i as int, e as int),
{
    let e = scan(s, i, Class::Atext);
    if e > i {
        Some(e)
    } else {
        None
    }
}

/// The rest of a dot-string after an atom that ends at `i`:
/// `*("." Atom)`
pub open spec fn dot_string_rest(s: Seq<u8>, i: int) -> int
    decreases s.len() - i,
{
    if byte_at(s, i, 46) {
        match atom(s, i + 1) {
            Some(e) => if advances(s, i, e) {
                dot_string_rest(s, e)
            } else {
                i
            },
            None => i,
        }
    } else {
        i
    }
}

/// `Dot-string = Atom *("." Atom)`
pub open spec fn dot_string(s: Seq<u8>, i: int) -> Option<int> {
    match atom(s, i) {
        Some(e) => Some(dot_string_rest(s, e)),
        None => None,
    }
}

/// Matches the rule [`dot_string`] at `i`.
pub fn match_dot_string(s: &[u8], i: usize) -> (r: Option<usize>)
    requires
        i <= s.len(),
    ensures
        to_int(r) == dot_string(s@, i as int),
        r matches Some(e) ==> i < e <= s.len() && ascii_between(s@, i as int, e as int),
{
    let mut e: usize = match match_atom(s, i) {
        Some(e) => e,
        None => { return None; },
    };
    loop
        invariant
            i < e <= s.len(),
            ascii_between(s@, i as int, e as int),
            dot_string(s@, i as int) == Some(dot_string_rest(s@, e as int)),
        ensures
            i < e <= s.len(),
            ascii_between(s@, i as int, e as int),
            dot_string(s@, i as int) == Some(e as int),
        decreases s.len() - e,
    {
        if !has_byte(s, e, 46) {
            break ;
        }
        match match_atom(s, e + 1) {
            Some(e2) => {
                e = e2;
            },
            None => {
                break ;
            },
        }
    }
    Some(e)
}

/// Whether `b` may stand unescaped in a quoted string: 32-33, 35-91,
/// 93-126.
pub open spec fn is_qtext(b: u8) -> bool {
    32 <= b <= 33 || 35 <= b <= 91 || 93 <= b <= 126
}

/// The end of the content of a quoted string from `i`:
/// `*(qtextSMTP / quoted-pairSMTP)`, where a quoted pair is a backslash
/// and one byte of 32-126.
pub open spec fn quoted_content(s: Seq<u8>, i: int) -> int
    decreases s.len() - i,
{
    if 0 <= i < s.len() && is_qtext(s[i]) {
        quoted_content(s, i + 1)
    } else if byte_at(s, i, 92) && i + 1 < s.len() && 32 <= s[i + 1] <= 126 {
        quoted_content(s, i + 2)
    } else {
        i
    }
}

/// `Quoted-string = DQUOTE *QcontentSMTP DQUOTE`
pub open spec fn quoted_string(s: Seq<u8>, i: int) -> Option<int> {
    if byte_at(s, i, 34) {
        let e = quoted_content(s, i + 1);
        if byte_at(s, e, 34) {
            Some(e + 1)
        } else {
            None
        }
    } else {
        None
    }
}

/// Matches the rule [`quoted_string`] at `i`.
pub fn match_quoted_string(s: &[u8], i: usize) -> (r: Option<usize>)
    requires
        i <= s.len(),
    ensures
        to_int(r) == quoted_string(s@, i as int),
        r matches Some(e) ==> i + 2 <= e <= s.len() && ascii_between(s@, i as int, e as int),
{
    if !has_byte(s, i, 34) {
        return None;
    }
    let mut e: usize = i + 1;
    loop
        invariant
            i < e <= s.len(),
            ascii_between(s@, i as int, e as int),
            quoted_content(s@, i + 1) == quoted_content(s@, e as int),
        ensures
            i < e <= s.len(),
            ascii_between(s@, i as int, e as int),
            quoted_content(s@, i + 1) == e,
        decreases s.len() - e,
    {
        if e < s.len() && ((32 <= s[e] && s[e] <= 33) || (35 <= s[e] && s[e] <= 91) || (93
            <= s[e] && s[e] <= 126)) {
            e = e + 1;
        } else if e < s.len() && s[e] == 92 && e + 1 < s.len() && 32 <= s[e + 1] && s[e + 1]
            <= 126 {
            e = e + 2;
        } else {
            break ;
        }
    }
    if has_byte(s, e, 34) {
        Some(e + 1)
    } else {
        None
    }
}

/// `String = Atom / Quoted-string`, as the text that it stands for (an
/// atom as it is, a quoted string without its quotes) and the position
/// after it: `(start, end, next)`.
pub open spec fn string(s: Seq<u8>, i: int) -> Option<(int, int, int)> {
    match atom(s, i) {
        Some(e) => Some((i, e, e)),
        None => match quoted_string(s, i) {
            Some(e) => Some((i + 1, e - 1, e)),
            None => None,
        },
    }
}

/// Matches the rule [`string`] at `i`.
pub fn match_string(s: &[u8], i: usize) -> (r: Option<(usize, usize, usize)>)
    requires
        i <= s.len(),
    ensures
        to_int3(r) == string(s@, i as int),
        r matches Some((a, b, n)) ==> i <= a <= b <= n <= s.len() && i < n && ascii_between(
            s@,
            a as int,
            b as int,
        ),
{
    match match_atom(s, i) {
        Some(e) => Some((i, e, e)),
        None => match match_quoted_string(s, i) {
            Some(e) => Some((i + 1, e - 1, e)),
            None => None,
        },
    }
}

/// `sub-domain = Let-dig [Ldh-str]`, with
/// `Ldh-str = *( ALPHA / DIGIT / "-" ) Let-dig`: a run of letters, digits
/// and hyphens that starts and ends with a letter or digit.
pub open spec fn subdomain(s: Seq<u8>, i: int) -> Option<int> {
    if 0 <= i < s.len() && is_alnum(s[i]) {
        Some(strip_hyphens(s, i, span(s, i, Class::Ldh)))
    } else {
        None
    }
}

/// Matches the rule [`subdomain`] at `i`.
pub fn match_subdomain(s: &[u8], i: usize) -> (r: Option<usize>)
    requires
        i <= s.len(),
    ensures
        to_int(r) == subdomain(s@, i as int),
        r matches Some(e) ==> i < e <= s.len() && ascii_between(s@, i as int, e as int),
{
    if i < s.len() && alnum(s[i]) {
        let run = scan(s, i, Class::Ldh);
        let e = drop_hyphens(s, i, run);
        Some(e)
    } else {
        None
    }
}

/// The rest of a domain after a sub-domain that ends at `i`:
/// `*("." sub-domain)`
pub open spec fn domain_rest(s: Seq<u8>, i: int) -> int
    decreases s.len() - i,
{
    if byte_at(s, i, 46) {
        match subdomain(s, i + 1) {
            Some(e) => if advances(s, i, e) {
                domain_rest(s, e)
            } else {
                i
            },
            None => i,
        }
    } else {
        i
    }
}

/// `Domain = sub-domain *("." sub-domain)`
pub open spec fn domain(s: Seq<u8>, i: int) -> Option<int> {
    match subdomain(s, i) {
        Some(e) => Some(domain_rest(s, e)),
        None => None,
    }
}

/// Matches the rule [`domain`] at `i`.
pub fn match_domain(s: &[u8], i: usize) -> (r: Option<usize>)
    requires
        i <= s.len(),
    ensures
        to_int(r) == domain(s@, i as int),
        r matches Some(e) ==> i < e <= s.len() && ascii_between(s@, i as int, e as int),
{
    let mut e: usize = match match_subdomain(s, i) {
        Some(e) => e,
        None => { return None; },
    };
    loop
        invariant
            i < e <= s.len(),
            ascii_between(s@, i as int, e as int),
            domain(s@, i as int) == Some(domain_rest(s@, e as int)),
        ensures
            i < e <= s.len(),
            ascii_between(s@, i as int, e as int),
            domain(s@, i as int) == Some(e as int),
        decreases s.len() - e,
    {
        if !has_byte(s, e, 46) {
            break ;
        }
        match match_subdomain(s, e + 1) {
            Some(e2) => {
                e = e2;
            },
            None => {
                break ;
            },
        }
    }
    Some(e)
}

/// `Snum = 1*3DIGIT`
pub open spec fn snum(s: Seq<u8>, i: int) -> Option<int> {
    let e = span_upto(s, i, Class::Digit, 3);
    if e > i {
        Some(e)
    } else {
        None
    }
}

/// `"." Snum`
pub open spec fn dot_snum(s: Seq<u8>, i: int) -> Option<int> {
    if byte_at(s, i, 46) {
        snum(s, i + 1)
    } else {
        None
    }
}

/// `IPv4-address-literal = Snum 3("." Snum)`
pub open spec fn ipv4(s: Seq<u8>, i: int) -> Option<int> {
    match snum(s, i) {
        Some(a) => match dot_snum(s, a) {
            Some(b) => match dot_snum(s, b) {
                Some(c) => dot_snum(s, c),
                None => None,
            },
            None => None,
        },
        None => None,
    }
}

fn match_snum(s: &[u8], i: usize) -> (r: Option<usize>)
    requires
        i <= s.len(),
    ensures
        to_int(r) == snum(s@, i as int),
        r matches Some(e) ==> i < e <= s.len() && ascii_between(s@, i as int, e as int),
{
    let e = scan_upto(s, i, Class::Digit, 3);
    if e > i {
        Some(e)
    } else {
        None
    }
}

fn match_dot_snum(s: &[u8], i: usize) -> (r: Option<usize>)
    requires
        i <= s.len(),
    ensures
        to_int(r) == dot_snum(s@, i as int),
        r matches Some(e) ==> i < e <= s.len() && ascii_between(s@, i as int, e as int),
{
    if has_byte(s, i, 46) {
        match_snum(s, i + 1)
    } else {
        None
    }
}

/// Matches the rule [`ipv4`] at `i`.
pub fn match_ipv4(s: &[u8], i: usize) -> (r: Option<usize>)
    requires
        i <= s.len(),
    ensures
        to_int(r) == ipv4(s@, i as int),
        r matches Some(e) ==> i < e <= s.len() && ascii_between(s@, i as int, e as int),
{
    let a = match match_snum(s, i) {
        Some(a) => a,
        None => { return None; },
    };
    let b = match match_dot_snum(s, a) {
        Some(b) => b,
        None => { return None; },
    };
    let c = match match_dot_snum(s, b) {
        Some(c) => c,
        None => { return None; },
    };
    match_dot_snum(s, c)
}

/// `IPv6-hex = 1*4HEXDIG`
pub open spec fn hex_group(s: Seq<u8>, i: int) -> Option<int> {
    let e = span_upto(s, i, Class::HexDigit, 4);
    if e > i {
        Some(e)
    } else {
        None
    }
}

fn match_hex_group(s: &[u8], i: usize) -> (r: Option<usize>)
    requires
        i <= s.len(),
    ensures
        to_int(r) == hex_group(s@, i as int),
        r matches Some(e) ==> i < e <= s.len() && ascii_between(s@, i as int, e as int),
{
    let e = scan_upto(s, i, Class::HexDigit, 4);
    if e > i {
        Some(e)
    } else {
        None
    }
}

/// After `n` groups that end at `i`, as many further `":" IPv6-hex` as
/// stand there, up to `max` groups in all. Gives the end and the number
/// of groups.
pub open spec fn more_groups(s: Seq<u8>, i: int, n: nat, max: nat) -> (int, nat)
    decreases max - n,
{
    if n < max && byte_at(s, i, 58) {
        match hex_group(s, i + 1) {
            Some(e) => more_groups(s, e, n + 1, max),
            None => (i, n),
        }
    } else {
        (i, n)
    }
}

/// `IPv6-hex *(":" IPv6-hex)`, at most `max` groups: the end and the
/// number of groups.
pub open spec fn groups(s: Seq<u8>, i: int, max: nat) -> Option<(int, nat)> {
    match hex_group(s, i) {
        Some(e) => Some(more_groups(s, e, 1, max)),
        None => None,
    }
}

fn match_groups(s: &[u8], i: usize, max: usize) -> (r: Option<(usize, usize)>)
    requires
        i <= s.len(),
        1 <= max <= 8,
    ensures
        match r {
            Some((e, n)) => groups(s@, i as int, max as nat) == Some((e as int, n as nat)) && i
                < e <= s.len() && 1 <= n <= max && ascii_between(s@, i as int, e as int),
            None => groups(s@, i as int, max as nat) is None,
        },
{
    let mut e: usize = match match_hex_group(s, i) {
        Some(e) => e,
        None => { return None; },
    };
    let mut n: usize = 1;
    loop
        invariant
            i < e <= s.len(),
            1 <= n <= max <= 8,
            ascii_between(s@, i as int, e as int),
            groups(s@, i as int, max as nat) == Some(
                more_groups(s@, e as int, n as nat, max as nat),
            ),
        ensures
            i < e <= s.len(),
            1 <= n <= max,
            ascii_between(s@, i as int, e as int),
            groups(s@, i as int, max as nat) == Some((e as int, n as nat)),
        decreases max - n,
    {
        if n >= max || !has_byte(s, e, 58) {
            break ;
        }
        match match_hex_group(s, e + 1) {
            Some(e2) => {
                e = e2;
                n = n + 1;
            },
            None => {
                break ;
            },
        }
    }
    Some((e, n))
}

/// After `n` pairs, as many further `IPv6-hex ":"` as stand at `i`, up to
/// `max` pairs in all. Gives the end and the number of pairs.
pub open spec fn group_colons(s: Seq<u8>, i: int, n: nat, max: nat) -> (int, nat)
    decreases max - n,
{
    if n < max {
        match hex_group(s, i) {
            Some(e) => if byte_at(s, e, 58) {
                group_colons(s, e + 1, n + 1, max)
            } else {
                (i, n)
            },
            None => (i, n),
        }
    } else {
        (i, n)
    }
}

fn match_group_colons(s: &[u8], i: usize, max: usize) -> (r: (usize, usize))
    requires
        i <= s.len(),
        max <= 8,
    ensures
        group_colons(s@, i as int, 0, max as nat) == (r.0 as int, r.1 as nat),
        i <= r.0 <= s.len(),
        r.1 <= max,
        ascii_between(s@, i as int, r.0 as int),
{
    let mut e: usize = i;
    let mut n: usize = 0;
    loop
        invariant
            i <= e <= s.len(),
            n <= max <= 8,
            ascii_between(s@, i as int, e as int),
            group_colons(s@, i as int, 0, max as nat) == group_colons(
                s@,
                e as int,
                n as nat,
                max as nat,
            ),
        ensures
            i <= e <= s.len(),
            n <= max,
            ascii_between(s@, i as int, e as int),
            group_colons(s@, i as int, 0, max as nat) == (e as int, n as nat),
        decreases max - n,
    {
        if n >= max {
            break ;
        }
        match match_hex_group(s, e) {
            Some(e2) => {
                if has_byte(s, e2, 58) {
                    e = e2 + 1;
                    n = n + 1;
                } else {
                    break ;
                }
            },
            None => {
                break ;
            },
        }
    }
    (e, n)
}

/// `IPv6-full = IPv6-hex 7(":" IPv6-hex)`
pub open spec fn ipv6_full(s: Seq<u8>, i: int) -> Option<int> {
    match groups(s, i, 8) {
        Some((e, n)) => if n == 8 {
            Some(e)
        } else {
            None
        },
        None => None,
    }
}

/// The end of an optional `IPv6-hex *(":" IPv6-hex)` of at most `max`
/// groups at `i`.
pub open spec fn optional_groups(s: Seq<u8>, i: int, max: nat) -> int {
    match groups(s, i, max) {
        Some((e, n)) => e,
        None => i,
    }
}

/// `IPv6-comp = [IPv6-hex *5(":" IPv6-hex)] "::" [IPv6-hex *5(":" IPv6-hex)]`
pub open spec fn ipv6_comp(s: Seq<u8>, i: int) -> Option<int> {
    let a = optional_groups(s, i, 6);
    if byte_at(s, a, 58) && byte_at(s, a + 1, 58) {
        Some(optional_groups(s, a + 2, 6))
    } else {
        None
    }
}

/// `IPv6v4-full = IPv6-hex 5(":" IPv6-hex) ":" IPv4-address-literal`
pub open spec fn ipv6v4_full(s: Seq<u8>, i: int) -> Option<int> {
    let (e, n) = group_colons(s, i, 0, 6);
    if n == 6 {
        ipv4(s, e)
    } else {
        None
    }
}

/// `IPv6v4-comp = [IPv6-hex *3(":" IPv6-hex)] "::"
///                [IPv6-hex *3(":" IPv6-hex) ":"] IPv4-address-literal`
pub open spec fn ipv6v4_comp(s: Seq<u8>, i: int) -> Option<int> {
    let a = optional_groups(s, i, 4);
    if byte_at(s, a, 58) && byte_at(s, a + 1, 58) {
        ipv4(s, group_colons(s, a + 2, 0, 4).0)
    } else {
        None
    }
}

/// Whether a rule matched up to a closing bracket.
pub open spec fn closed(s: Seq<u8>, r: Option<int>) -> bool {
    match r {
        Some(e) => byte_at(s, e, 93),
        None => false,
    }
}

/// `IPv6-addr = IPv6-full / IPv6-comp / IPv6v4-full / IPv6v4-comp`, where
/// the closing bracket follows: the first of the four forms that reaches
/// it.
pub open spec fn ipv6_addr(s: Seq<u8>, i: int) -> Option<int> {
    if closed(s, ipv6_full(s, i)) {
        ipv6_full(s, i)
    } else if closed(s, ipv6_comp(s, i)) {
        ipv6_comp(s, i)
    } else if closed(s, ipv6v4_full(s, i)) {
        ipv6v4_full(s, i)
    } else if closed(s, ipv6v4_comp(s, i)) {
        ipv6v4_comp(s, i)
    } else {
        None
    }
}

fn match_optional_groups(s: &[u8], i: usize, max: usize) -> (e: usize)
    requires
        i <= s.len(),
        1 <= max <= 8,
    ensures
        e == optional_groups(s@, i as int, max as nat),
        i <= e <= s.len(),
        ascii_between(s@, i as int, e as int),
{
    match match_groups(s, i, max) {
        Some((e, _)) => e,
        None => i,
    }
}

fn match_ipv6_full(s: &[u8], i: usize) -> (r: Option<usize>)
    requires
        i <= s.len(),
    ensures
        to_int(r) == ipv6_full(s@, i as int),
        r matches Some(e) ==> i < e <= s.len() && ascii_between(s@, i as int, e as int),
{
    match match_groups(s, i, 8) {
        Some((e, n)) => if n == 8 {
            Some(e)
        } else {
            None
        },
        None => None,
    }
}

fn match_ipv6_comp(s: &[u8], i: usize) -> (r: Option<usize>)
    requires
        i <= s.len(),
    ensures
        to_int(r) == ipv6_comp(s@, i as int),
        r matches Some(e) ==> i < e <= s.len() && ascii_between(s@, i as int, e as int),
{
    let a = match_optional_groups(s, i, 6);
    if has_byte(s, a, 58) && has_byte(s, a + 1, 58) {
        Some(match_optional_groups(s, a + 2, 6))
    } else {
        None
    }
}

fn match_ipv6v4_full(s: &[u8], i: usize) -> (r: Option<usize>)
    requires
        i <= s.len(),
    ensures
        to_int(r) == ipv6v4_full(s@, i as int),
        r matches Some(e) ==> i < e <= s.len() && ascii_between(s@, i as int, e as int),
{
    let (e, n) = match_group_colons(s, i, 6);
    if n == 6 {
        match_ipv4(s, e)
    } else {
        None
    }
}

fn match_ipv6v4_comp(s: &[u8], i: usize) -> (r: Option<usize>)
    requires
        i <= s.len(),
    ensures
        to_int(r) == ipv6v4_comp(s@, i as int),
        r matches Some(e) ==> i < e <= s.len() && ascii_between(s@, i as int, e as int),
{
    let a = match_optional_groups(s, i, 4);
    if has_byte(s, a, 58) && has_byte(s, a + 1, 58) {
        let (e, _) = match_group_colons(s, a + 2, 4);
        match_ipv4(s, e)
    } else {
        None
    }
}

/// Whether the matcher's result reaches a closing bracket.
fn is_closed(s: &[u8], r: Option<usize>) -> (b: bool)
    ensures
        b == closed(s@, to_int(r)),
{
    match r {
        Some(e) => has_byte(s, e, 93),
        None => false,
    }
}

/// Matches the rule [`ipv6_addr`] at `i`.
pub fn match_ipv6_addr(s: &[u8], i: usize) -> (r: Option<usize>)
    requires
        i <= s.len(),
    ensures
        to_int(r) == ipv6_addr(s@, i as int),
        r matches Some(e) ==> i < e < s.len() && s@[e as int] == 93 && ascii_between(
            s@,
            i as int,
            e as int,
        ),
{
    let full = match_ipv6_full(s, i);
    if is_closed(s, full) {
        return full;
    }
    let comp = match_ipv6_comp(s, i);
    if is_closed(s, comp) {
        return comp;
    }
    let v4full = match_ipv6v4_full(s, i);
    if is_closed(s, v4full) {
        return v4full;
    }
    let v4comp = match_ipv6v4_comp(s, i);
    if is_closed(s, v4comp) {
        return v4comp;
    }
    None
}

/// `General-address-literal = Standardized-tag ":" 1*dcontent`, where the
/// tag is an `Ldh-str`: a run of letters, digits and hyphens that ends
/// with a letter or digit.
pub open spec fn general_literal(s: Seq<u8>, i: int) -> Option<int> {
    let tag = strip_hyphens(s, i, span(s, i, Class::Ldh));
    if tag > i && byte_at(s, tag, 58) {
        let e = span(s, tag + 1, Class::Dcontent);
        if e > tag + 1 {
            Some(e)
        } else {
            None
        }
    } else {
        None
    }
}

/// Matches the rule [`general_literal`] at `i`.
pub fn match_general_literal(s: &[u8], i: usize) -> (r: Option<usize>)
    requires
        i <= s.len(),
    ensures
        to_int(r) == general_literal(s@, i as int),
        r matches Some(e) ==> i < e <= s.len() && ascii_between(s@, i as int, e as int),
{
    let run = scan(s, i, Class::Ldh);
    let tag = drop_hyphens(s, i, run);
    if tag > i && has_byte(s, tag, 58) {
        let e = scan(s, tag + 1, Class::Dcontent);
        if e > tag + 1 {
            Some(e)
        } else {
            None
        }
    } else {
        None
    }
}

/// Whether `IPv6:` stands at `i`, in any mix of upper and lower case.
pub open spec fn ipv6_tag(s: Seq<u8>, i: int) -> bool {
    letter_at(s, i, 105) && letter_at(s, i + 1, 112) && letter_at(s, i + 2, 118) && byte_at(
        s,
        i + 3,
        54,
    ) && byte_at(s, i + 4, 58)
}

/// `address-literal = "[" ( IPv4-address-literal / IPv6-address-literal /
/// General-address-literal ) "]"`, with
/// `IPv6-address-literal = "IPv6:" IPv6-addr`. Gives the address inside
/// (without the brackets and without `IPv6:`) and the position after the
/// closing bracket: `(start, end, next)`.
pub open spec fn address_literal(s: Seq<u8>, i: int) -> Option<(int, int, int)> {
    if !byte_at(s, i, 91) {
        None
    } else if closed(s, ipv4(s, i + 1)) {
        Some((i + 1, ipv4(s, i + 1).unwrap(), ipv4(s, i + 1).unwrap() + 1))
    } else if ipv6_tag(s, i + 1) && ipv6_addr(s, i + 6) is Some {
        Some((i + 6, ipv6_addr(s, i + 6).unwrap(), ipv6_addr(s, i + 6).unwrap() + 1))
    } else if closed(s, general_literal(s, i + 1)) {
        Some(
            (i + 1, general_literal(s, i + 1).unwrap(), general_literal(s, i + 1).unwrap() + 1),
        )
    } else {
        None
    }
}

/// Matches the rule [`address_literal`] at `i`.
pub fn match_address_literal(s: &[u8], i: usize) -> (r: Option<(usize, usize, usize)>)
    requires
        i <= s.len(),
    ensures
        to_int3(r) == address_literal(s@, i as int),
        r matches Some((a, b, n)) ==> i < a < b < n <= s.len() && n == b + 1 && ascii_between(
            s@,
            i as int,
            n as int,
        ),
{
    if !has_byte(s, i, 91) {
        return None;
    }
    let v4 = match_ipv4(s, i + 1);
    if is_closed(s, v4) {
        match v4 {
            Some(e) => { return Some((i + 1, e, e + 1)); },
            None => {},
        }
    }
    if has_letter(s, i + 1, 105) && has_letter(s, i + 2, 112) && has_letter(s, i + 3, 118)
        && has_byte(s, i + 4, 54) && has_byte(s, i + 5, 58) {
        match match_ipv6_addr(s, i + 6) {
            Some(e) => {
                proof {
                    assert forall|k: int| i <= k < e + 1 implies #[trigger] s@[k] < 128 by {
                        if k == i + 1 || k == i + 2 || k == i + 3 {
                            assert(fold(s@[k]) < 128);
                        }
                    }
                }
                return Some((i + 6, e, e + 1));
            },
            None => {},
        }
    }
    let general = match_general_literal(s, i + 1);
    if is_closed(s, general) {
        match general {
            Some(e) => { return Some((i + 1, e, e + 1)); },
            None => {},
        }
    }
    None
}

/// `Local-part = Dot-string / Quoted-string`
pub open spec fn local_part(s: Seq<u8>, i: int) -> Option<int> {
    match dot_string(s, i) {
        Some(e) => Some(e),
        None => quoted_string(s, i),
    }
}

/// `Mailbox = Local-part "@" ( Domain / address-literal )`
pub open spec fn mailbox(s: Seq<u8>, i: int) -> Option<int> {
    match local_part(s, i) {
        Some(e) => if byte_at(s, e, 64) {
            match domain(s, e + 1) {
                Some(d) => Some(d),
                None => match address_literal(s, e + 1) {
                    Some((a, b, n)) => Some(n),
                    None => None,
                },
            }
        } else {
            None
        },
        None => None,
    }
}

/// Matches the rule [`mailbox`] at `i`.
pub fn match_mailbox(s: &[u8], i: usize) -> (r: Option<usize>)
    requires
        i <= s.len(),
    ensures
        to_int(r) == mailbox(s@, i as int),
        r matches Some(e) ==> i < e <= s.len() && ascii_between(s@, i as int, e as int),
{
    let local = match match_dot_string(s, i) {
        Some(e) => Some(e),
        None => match_quoted_string(s, i),
    };
    match local {
        Some(e) => {
            if has_byte(s, e, 64) {
                match match_domain(s, e + 1) {
                    Some(d) => Some(d),
                    None => match match_address_literal(s, e + 1) {
                        Some((_, _, n)) => Some(n),
                        None => None,
                    },
                }
            } else {
                None
            }
        },
        None => None,
    }
}

/// `At-domain = "@" Domain`
pub open spec fn at_domain(s: Seq<u8>, i: int) -> Option<int> {
    if byte_at(s, i, 64) {
        domain(s, i + 1)
    } else {
        None
    }
}

/// The rest of a source route after an at-domain that ends at `i`:
/// `*("," At-domain)`
pub open spec fn route_rest(s: Seq<u8>, i: int) -> int
    decreases s.len() - i,
{
    if byte_at(s, i, 44) {
        match at_domain(s, i + 1) {
            Some(e) => if advances(s, i, e) {
                route_rest(s, e)
            } else {
                i
            },
            None => i,
        }
    } else {
        i
    }
}

/// `A-d-l = At-domain *("," At-domain)`
pub open spec fn route(s: Seq<u8>, i: int) -> Option<int> {
    match at_domain(s, i) {
        Some(e) => Some(route_rest(s, e)),
        None => None,
    }
}

fn match_at_domain(s: &[u8], i: usize) -> (r: Option<usize>)
    requires
        i <= s.len(),
    ensures
        to_int(r) == at_domain(s@, i as int),
        r matches Some(e) ==> i < e <= s.len(),
{
    if has_byte(s, i, 64) {
        match_domain(s, i + 1)
    } else {
        None
    }
}

fn match_route(s: &[u8], i: usize) -> (r: Option<usize>)
    requires
        i <= s.len(),
    ensures
        to_int(r) == route(s@, i as int),
        r matches Some(e) ==> i < e <= s.len(),
{
    let mut e: usize = match match_at_domain(s, i) {
        Some(e) => e,
        None => { return None; },
    };
    loop
        invariant
            i < e <= s.len(),
            route(s@, i as int) == Some(route_rest(s@, e as int)),
        ensures
            i < e <= s.len(),
            route(s@, i as int) == Some(e as int),
        decreases s.len() - e,
    {
        if !has_byte(s, e, 44) {
            break ;
        }
        match match_at_domain(s, e + 1) {
            Some(e2) => {
                e = e2;
            },
            None => {
                break ;
            },
        }
    }
    Some(e)
}

/// Where the mailbox of a path starts, when the path starts at `i`: after
/// `"<"` and after the source route `A-d-l ":"`, if one stands there.
pub open spec fn mailbox_start(s: Seq<u8>, i: int) -> int {
    match route(s, i + 1) {
        Some(e) => if byte_at(s, e, 58) {
            e + 1
        } else {
            i + 1
        },
        None => i + 1,
    }
}

/// `Path = "<" [ A-d-l ":" ] Mailbox ">"`, as the mailbox and the
/// position after the path: `(start, end, next)`.
pub open spec fn path(s: Seq<u8>, i: int) -> Option<(int, int, int)> {
    if byte_at(s, i, 60) {
        let m = mailbox_start(s, i);
        match mailbox(s, m) {
            Some(e) => if byte_at(s, e, 62) {
                Some((m, e, e + 1))
            } else {
                None
            },
            None => None,
        }
    } else {
        None
    }
}

/// Matches the rule [`path`] at `i`.
pub fn match_path(s: &[u8], i: usize) -> (r: Option<(usize, usize, usize)>)
    requires
        i <= s.len(),
    ensures
        to_int3(r) == path(s@, i as int),
        r matches Some((a, b, n)) ==> i < a < b < n <= s.len() && ascii_between(
            s@,
            a as int,
            b as int,
        ),
{
    if !has_byte(s, i, 60) {
        return None;
    }
    let m: usize = match match_route(s, i + 1) {
        Some(e) => if has_byte(s, e, 58) {
            e + 1
        } else {
            i + 1
        },
        None => i + 1,
    };
    match match_mailbox(s, m) {
        Some(e) => if has_byte(s, e, 62) {
            Some((m, e, e + 1))
        } else {
            None
        },
        None => None,
    }
}

/// `Reverse-path = Path / "<>"`. The empty path gives an empty text.
pub open spec fn reverse_path(s: Seq<u8>, i: int) -> Option<(int, int, int)> {
    match path(s, i) {
        Some(t) => Some(t),
        None => if byte_at(s, i, 60) && byte_at(s, i + 1, 62) {
            Some((i + 1, i + 1, i + 2))
        } else {
            None
        },
    }
}

/// Matches the rule [`reverse_path`] at `i`.
pub fn match_reverse_path(s: &[u8], i: usize) -> (r: Option<(usize, usize, usize)>)
    requires
        i <= s.len(),
    ensures
        to_int3(r) == reverse_path(s@, i as int),
        r matches Some((a, b, n)) ==> i < a <= b < n <= s.len() && ascii_between(
            s@,
            a as int,
            b as int,
        ),
{
    match match_path(s, i) {
        Some(t) => Some(t),
        None => if has_byte(s, i, 60) && has_byte(s, i + 1, 62) {
            Some((i + 1, i + 1, i + 2))
        } else {
            None
        },
    }
}

/// Whether `<Postmaster>` stands at `i`, the name in any mix of upper and
/// lower case.
pub open spec fn bare_postmaster(s: Seq<u8>, i: int) -> bool {
    byte_at(s, i, 60) && letter_at(s, i + 1, 112) && letter_at(s, i + 2, 111) && letter_at(
        s,
        i + 3,
        115,
    ) && letter_at(s, i + 4, 116) && letter_at(s, i + 5, 109) && letter_at(s, i + 6, 97)
        && letter_at(s, i + 7, 115) && letter_at(s, i + 8, 116) && letter_at(s, i + 9, 101)
        && letter_at(s, i + 10, 114) && byte_at(s, i + 11, 62)
}

/// The recipient of `RCPT`: `"<Postmaster>" / Forward-path`, with
/// `Forward-path = Path`. `<Postmaster@domain>` is a path whose local part
/// is the atom `Postmaster`.
pub open spec fn forward_path(s: Seq<u8>, i: int) -> Option<(int, int, int)> {
    if bare_postmaster(s, i) {
        Some((i + 1, i + 11, i + 12))
    } else {
        path(s, i)
    }
}

/// Matches the rule [`forward_path`] at `i`.
pub fn match_forward_path(s: &[u8], i: usize) -> (r: Option<(usize, usize, usize)>)
    requires
        i <= s.len(),
    ensures
        to_int3(r) == forward_path(s@, i as int),
        r matches Some((a, b, n)) ==> i < a < b < n <= s.len() && ascii_between(
            s@,
            a as int,
            b as int,
        ),
{
    if has_byte(s, i, 60) && has_letter(s, i + 1, 112) && has_letter(s, i + 2, 111)
        && has_letter(s, i + 3, 115) && has_letter(s, i + 4, 116) && has_letter(s, i + 5, 109)
        && has_letter(s, i + 6, 97) && has_letter(s, i + 7, 115) && has_letter(s, i + 8, 116)
        && has_letter(s, i + 9, 101) && has_letter(s, i + 10, 114) && has_byte(s, i + 11, 62) {
        proof {
            assert forall|k: int| i + 1 <= k < i + 11 implies #[trigger] s@[k] < 128 by {
                assert(fold(s@[k]) < 128);
            }
        }
        Some((i + 1, i + 11, i + 12))
    } else {
        match_path(s, i)
    }
}

/// `esmtp-param = esmtp-keyword "=" esmtp-value`, with
/// `esmtp-keyword = (ALPHA / DIGIT) *(ALPHA / DIGIT / "-")` and
/// `esmtp-value = 1*(%d33-60 / %d62-126)`. Gives the end of the keyword
/// and the end of the value; the value starts one after the keyword.
pub open spec fn esmtp_param(s: Seq<u8>, i: int) -> Option<(int, int)> {
    if 0 <= i < s.len() && is_alnum(s[i]) {
        let k = span(s, i + 1, Class::Ldh);
        if byte_at(s, k, 61) {
            let v = span(s, k + 1, Class::EsmtpValue);
            if v > k + 1 {
                Some((k, v))
            } else {
                None
            }
        } else {
            None
        }
    } else {
        None
    }
}

/// Matches the rule [`esmtp_param`] at `i`.
pub fn match_esmtp_param(s: &[u8], i: usize) -> (r: Option<(usize, usize)>)
    requires
        i <= s.len(),
    ensures
        match r {
            Some((k, v)) => esmtp_param(s@, i as int) == Some((k as int, v as int)) && i < k
                && k + 1 < v <= s.len() && ascii_between(s@, i as int, v as int),
            None => esmtp_param(s@, i as int) is None,
        },
{
    if i < s.len() && alnum(s[i]) {
        let k = scan(s, i + 1, Class::Ldh);
        if has_byte(s, k, 61) {
            let v = scan(s, k + 1, Class::EsmtpValue);
            if v > k + 1 {
                Some((k, v))
            } else {
                None
            }
        } else {
            None
        }
    } else {
        None
    }
}

} // verus!
