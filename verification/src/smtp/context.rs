//! What a rule matches does not depend on where its text stands.
//!
//! The lemmas of this module carry a match from one byte sequence to
//! another that holds the same text at another place. They are what the
//! round trip of a command through its line rests on.

use vstd::prelude::*;
use crate::bytes::{byte_at, lemma_span, span, Class};
use crate::smtp::grammar::{
    advances, atom, domain, domain_rest, dot_string, dot_string_rest, is_qtext, local_part,
    quoted_content, quoted_string, string, strip_hyphens, subdomain,
};

verus! {

/// Whether `t` holds from `j` the `n` bytes that `s` holds from `i`.
pub open spec fn same(s: Seq<u8>, i: int, t: Seq<u8>, j: int, n: int) -> bool {
    &&& 0 <= i
    &&& 0 <= j
    &&& 0 <= n
    &&& i + n <= s.len()
    &&& j + n <= t.len()
    &&& forall|p: int| i <= p < i + n ==> #[trigger] s[p] == t[p - i + j]
}

/// Whether no byte of class `c` stands in `t` at `p`.
pub open spec fn stops(t: Seq<u8>, p: int, c: Class) -> bool {
    p >= t.len() || (0 <= p && !c.has(t[p]))
}

/// The same text in a part of the place is the same text.
pub proof fn lemma_same_part(s: Seq<u8>, i: int, t: Seq<u8>, j: int, n: int, a: int, m: int)
    requires
        same(s, i, t, j, n),
        0 <= a,
        0 <= m,
        a + m <= n,
    ensures
        same(s, i + a, t, j + a, m),
{
    assert forall|p: int| i + a <= p < i + a + m implies #[trigger] s[p] == t[p - (i + a) + (j
        + a)] by {
        assert(s[p] == t[p - i + j]);
    }
}

/// A run of `n` bytes is a run wherever the same bytes stand and a byte
/// outside the class follows.
pub proof fn lemma_span_same(s: Seq<u8>, i: int, t: Seq<u8>, j: int, n: int, c: Class)
    requires
        same(s, i, t, j, n),
        span(s, i, c) >= i + n,
        stops(t, j + n, c),
    ensures
        span(t, j, c) == j + n,
    decreases n,
{
    if n > 0 {
        assert(s[i + 0] == t[j + 0]);
        lemma_same_part(s, i, t, j, n, 1, n - 1);
        lemma_span_same(s, i + 1, t, j + 1, n - 1, c);
    }
}

/// Bytes of one class with a byte outside the class after them are a run.
pub proof fn lemma_span_exact(t: Seq<u8>, j: int, e: int, c: Class)
    requires
        0 <= j <= e <= t.len(),
        forall|k: int| j <= k < e ==> c.has(#[trigger] t[k]),
        stops(t, e, c),
    ensures
        span(t, j, c) == e,
    decreases e - j,
{
    if j < e {
        lemma_span_exact(t, j + 1, e, c);
    }
}

/// Hyphens are stripped alike wherever the same bytes stand.
pub proof fn lemma_strip_same(s: Seq<u8>, i: int, t: Seq<u8>, j: int, n: int)
    requires
        same(s, i, t, j, n),
    ensures
        strip_hyphens(t, j, j + n) - j == strip_hyphens(s, i, i + n) - i,
    decreases n,
{
    if n > 0 {
        assert(s[i + (n - 1)] == t[j + (n - 1)]);
        if s[i + n - 1] == 45 {
            lemma_same_part(s, i, t, j, n, 0, n - 1);
            lemma_strip_same(s, i, t, j, n - 1);
        }
    }
}

/// What is left after stripping hyphens ends within the run, and a run
/// that does not end with a hyphen is left whole.
pub proof fn lemma_strip_bounds(s: Seq<u8>, i: int, e: int)
    requires
        0 <= i <= e <= s.len(),
    ensures
        i <= strip_hyphens(s, i, e) <= e,
        strip_hyphens(s, i, e) > i ==> s[strip_hyphens(s, i, e) - 1] != 45,
        strip_hyphens(s, i, e) < e ==> s[strip_hyphens(s, i, e)] == 45,
        i < e && s[i] != 45 ==> strip_hyphens(s, i, e) > i,
    decreases e - i,
{
    if i < e && s[e - 1] == 45 {
        lemma_strip_bounds(s, i, e - 1);
    }
}

/// An atom is an atom wherever the same bytes stand and no `atext`
/// follows.
pub proof fn lemma_atom_same(s: Seq<u8>, i: int, t: Seq<u8>, j: int, e: int)
    requires
        atom(s, i) == Some(e),
        same(s, i, t, j, e - i),
        stops(t, j + e - i, Class::Atext),
    ensures
        atom(t, j) == Some(j + e - i),
{
    lemma_span_same(s, i, t, j, e - i, Class::Atext);
}

/// The rest of a dot-string is the same wherever the same bytes stand
/// and neither `atext` nor a dot follows.
pub proof fn lemma_dot_string_rest_same(s: Seq<u8>, i: int, t: Seq<u8>, j: int, e: int)
    requires
        0 <= i <= s.len(),
        dot_string_rest(s, i) == e,
        same(s, i, t, j, e - i),
        stops(t, j + e - i, Class::Atext),
        !byte_at(t, j + e - i, 46),
    ensures
        dot_string_rest(t, j) == j + e - i,
    decreases s.len() - i,
{
    if byte_at(s, i, 46) {
        match atom(s, i + 1) {
            Some(a) => {
                lemma_span(s, i + 1, Class::Atext);
                if advances(s, i, a) {
                    lemma_dot_string_rest_bounds(s, a);
                    assert(s[i + 0] == t[j + 0]);
                    lemma_same_part(s, i, t, j, e - i, 1, a - i - 1);
                    lemma_same_part(s, i, t, j, e - i, a - i, e - a);
                    if a < e {
                        assert(s[i + (a - i)] == t[j + (a - i)]);
                        assert(byte_at(s, a, 46));
                    }
                    lemma_atom_same(s, i + 1, t, j + 1, a);
                    lemma_dot_string_rest_same(s, a, t, j + a - i, e);
                }
            },
            None => {},
        }
    }
}

/// The rest of a dot-string ends at or after its start, and where it
/// goes on a dot stands at its start.
pub proof fn lemma_dot_string_rest_bounds(s: Seq<u8>, i: int)
    requires
        0 <= i <= s.len(),
    ensures
        i <= dot_string_rest(s, i) <= s.len(),
        dot_string_rest(s, i) > i ==> byte_at(s, i, 46),
    decreases s.len() - i,
{
    if byte_at(s, i, 46) {
        match atom(s, i + 1) {
            Some(a) => {
                if advances(s, i, a) {
                    lemma_dot_string_rest_bounds(s, a);
                }
            },
            None => {},
        }
    }
}

/// A dot-string is a dot-string wherever the same bytes stand and
/// neither `atext` nor a dot follows.
pub proof fn lemma_dot_string_same(s: Seq<u8>, i: int, t: Seq<u8>, j: int, e: int)
    requires
        0 <= i,
        dot_string(s, i) == Some(e),
        same(s, i, t, j, e - i),
        stops(t, j + e - i, Class::Atext),
        !byte_at(t, j + e - i, 46),
    ensures
        dot_string(t, j) == Some(j + e - i),
{
    let a = atom(s, i).unwrap();
    if i <= s.len() {
        lemma_span(s, i, Class::Atext);
    }
    lemma_dot_string_rest_bounds(s, a);
    lemma_same_part(s, i, t, j, e - i, 0, a - i);
    lemma_same_part(s, i, t, j, e - i, a - i, e - a);
    if a < e {
        assert(s[i + (a - i)] == t[j + (a - i)]);
    }
    lemma_atom_same(s, i, t, j, a);
    lemma_dot_string_rest_same(s, a, t, j + a - i, e);
}

/// The content of a quoted string ends at or after its start.
pub proof fn lemma_quoted_content_bounds(s: Seq<u8>, i: int)
    requires
        0 <= i <= s.len(),
    ensures
        i <= quoted_content(s, i) <= s.len(),
        quoted_content(s, i) < s.len() ==> !is_qtext(s[quoted_content(s, i)]),
    decreases s.len() - i,
{
    if i < s.len() && is_qtext(s[i]) {
        lemma_quoted_content_bounds(s, i + 1);
    } else if byte_at(s, i, 92) && i + 1 < s.len() && 32 <= s[i + 1] <= 126 {
        lemma_quoted_content_bounds(s, i + 2);
    }
}

/// The content of a quoted string is the same wherever the same bytes
/// stand and a double quote follows.
pub proof fn lemma_quoted_content_same(s: Seq<u8>, i: int, t: Seq<u8>, j: int, e: int)
    requires
        0 <= i <= s.len(),
        quoted_content(s, i) == e,
        same(s, i, t, j, e - i),
        byte_at(t, j + e - i, 34),
    ensures
        quoted_content(t, j) == j + e - i,
    decreases s.len() - i,
{
    if i < s.len() && is_qtext(s[i]) {
        lemma_quoted_content_bounds(s, i + 1);
        assert(s[i + 0] == t[j + 0]);
        lemma_same_part(s, i, t, j, e - i, 1, e - i - 1);
        lemma_quoted_content_same(s, i + 1, t, j + 1, e);
    } else if byte_at(s, i, 92) && i + 1 < s.len() && 32 <= s[i + 1] <= 126 {
        lemma_quoted_content_bounds(s, i + 2);
        assert(s[i + 0] == t[j + 0]);
        assert(s[i + 1] == t[j + 1]);
        lemma_same_part(s, i, t, j, e - i, 2, e - i - 2);
        lemma_quoted_content_same(s, i + 2, t, j + 2, e);
    } else {
        assert(e == i);
    }
}

/// A quoted string is a quoted string wherever the same bytes stand.
pub proof fn lemma_quoted_string_same(s: Seq<u8>, i: int, t: Seq<u8>, j: int, e: int)
    requires
        0 <= i,
        quoted_string(s, i) == Some(e),
        same(s, i, t, j, e - i),
    ensures
        quoted_string(t, j) == Some(j + e - i),
{
    lemma_quoted_content_bounds(s, i + 1);
    assert(s[i + 0] == t[j + 0]);
    assert(s[i + (e - 1 - i)] == t[j + (e - 1 - i)]);
    lemma_same_part(s, i, t, j, e - i, 1, e - i - 2);
    lemma_quoted_content_same(s, i + 1, t, j + 1, e - 1);
}

/// A sub-domain is a sub-domain wherever the same bytes stand and
/// neither a letter, a digit nor a hyphen follows.
pub proof fn lemma_subdomain_same(s: Seq<u8>, i: int, t: Seq<u8>, j: int, e: int)
    requires
        subdomain(s, i) == Some(e),
        same(s, i, t, j, e - i),
        stops(t, j + e - i, Class::Ldh),
    ensures
        subdomain(t, j) == Some(j + e - i),
        i < e <= s.len(),
{
    let run = span(s, i, Class::Ldh);
    lemma_span(s, i, Class::Ldh);
    lemma_span(s, i + 1, Class::Ldh);
    lemma_strip_bounds(s, i, run);
    assert(s[i + 0] == t[j + 0]);
    lemma_span_same(s, i, t, j, e - i, Class::Ldh);
    lemma_strip_bounds(t, j, j + e - i);
    assert(s[i + (e - 1 - i)] == t[j + (e - 1 - i)]);
}

/// The rest of a domain ends at or after its start, and where it goes
/// on a dot stands at its start.
pub proof fn lemma_domain_rest_bounds(s: Seq<u8>, i: int)
    requires
        0 <= i <= s.len(),
    ensures
        i <= domain_rest(s, i) <= s.len(),
        domain_rest(s, i) > i ==> byte_at(s, i, 46),
    decreases s.len() - i,
{
    if byte_at(s, i, 46) {
        match subdomain(s, i + 1) {
            Some(a) => {
                if advances(s, i, a) {
                    lemma_domain_rest_bounds(s, a);
                }
            },
            None => {},
        }
    }
}

/// The rest of a domain is the same wherever the same bytes stand and
/// neither a letter, a digit, a hyphen nor a dot follows.
pub proof fn lemma_domain_rest_same(s: Seq<u8>, i: int, t: Seq<u8>, j: int, e: int)
    requires
        0 <= i <= s.len(),
        domain_rest(s, i) == e,
        same(s, i, t, j, e - i),
        stops(t, j + e - i, Class::Ldh),
        !byte_at(t, j + e - i, 46),
    ensures
        domain_rest(t, j) == j + e - i,
    decreases s.len() - i,
{
    if byte_at(s, i, 46) {
        match subdomain(s, i + 1) {
            Some(a) => {
                if advances(s, i, a) {
                    lemma_domain_rest_bounds(s, a);
                    assert(s[i + 0] == t[j + 0]);
                    lemma_same_part(s, i, t, j, e - i, 1, a - i - 1);
                    lemma_same_part(s, i, t, j, e - i, a - i, e - a);
                    if a < e {
                        assert(s[i + (a - i)] == t[j + (a - i)]);
                        assert(byte_at(s, a, 46));
                    }
                    lemma_subdomain_same(s, i + 1, t, j + 1, a);
                    lemma_domain_rest_same(s, a, t, j + a - i, e);
                }
            },
            None => {},
        }
    }
}

/// A domain is a domain wherever the same bytes stand and neither a
/// letter, a digit, a hyphen nor a dot follows.
pub proof fn lemma_domain_same(s: Seq<u8>, i: int, t: Seq<u8>, j: int, e: int)
    requires
        0 <= i,
        domain(s, i) == Some(e),
        same(s, i, t, j, e - i),
        stops(t, j + e - i, Class::Ldh),
        !byte_at(t, j + e - i, 46),
    ensures
        domain(t, j) == Some(j + e - i),
        i < e <= s.len(),
{
    let a = subdomain(s, i).unwrap();
    lemma_span(s, i, Class::Ldh);
    lemma_strip_bounds(s, i, span(s, i, Class::Ldh));
    lemma_domain_rest_bounds(s, a);
    lemma_same_part(s, i, t, j, e - i, 0, a - i);
    lemma_same_part(s, i, t, j, e - i, a - i, e - a);
    if a < e {
        assert(s[i + (a - i)] == t[j + (a - i)]);
    }
    lemma_subdomain_same(s, i, t, j, a);
    lemma_domain_rest_same(s, a, t, j + a - i, e);
}

/// A local part is a local part wherever the same bytes stand and an at
/// sign follows.
pub proof fn lemma_local_part_same(s: Seq<u8>, i: int, t: Seq<u8>, j: int, e: int)
    requires
        0 <= i,
        local_part(s, i) == Some(e),
        same(s, i, t, j, e - i),
        byte_at(t, j + e - i, 64),
    ensures
        local_part(t, j) == Some(j + e - i),
        i < e <= s.len(),
        s[i] != 64,
{
    if dot_string(s, i) is Some {
        if i <= s.len() {
            lemma_span(s, i, Class::Atext);
        }
        lemma_dot_string_rest_bounds(s, atom(s, i).unwrap());
        lemma_dot_string_same(s, i, t, j, e);
    } else {
        lemma_quoted_content_bounds(s, i + 1);
        assert(s[i] == t[i - i + j]);
        assert(atom(t, j) is None);
        lemma_quoted_string_same(s, i, t, j, e);
    }
}

/// A domain ends after its start and within the sequence.
pub proof fn lemma_domain_bounds(s: Seq<u8>, i: int)
    requires
        0 <= i,
    ensures
        domain(s, i) matches Some(e) ==> i < e <= s.len(),
{
    if subdomain(s, i) is Some {
        lemma_span(s, i, Class::Ldh);
        lemma_span(s, i + 1, Class::Ldh);
        lemma_strip_bounds(s, i, span(s, i, Class::Ldh));
        lemma_domain_rest_bounds(s, subdomain(s, i).unwrap());
    }
}

/// A local part ends after its start and within the sequence.
pub proof fn lemma_local_part_bounds(s: Seq<u8>, i: int)
    requires
        0 <= i,
    ensures
        local_part(s, i) matches Some(e) ==> i < e <= s.len(),
{
    if dot_string(s, i) is Some {
        if i <= s.len() {
            lemma_span(s, i, Class::Atext);
        }
        lemma_dot_string_rest_bounds(s, atom(s, i).unwrap());
    } else if quoted_string(s, i) is Some {
        lemma_quoted_content_bounds(s, i + 1);
    }
}

/// A source route ends after its start and within the sequence.
pub proof fn lemma_route_bounds(s: Seq<u8>, i: int)
    requires
        0 <= i,
    ensures
        crate::smtp::grammar::route(s, i) matches Some(e) ==> i < e <= s.len(),
{
    lemma_domain_bounds(s, i + 1);
    match crate::smtp::grammar::at_domain(s, i) {
        Some(e) => {
            lemma_route_rest_bounds(s, e);
        },
        None => {},
    }
}

proof fn lemma_route_rest_bounds(s: Seq<u8>, i: int)
    requires
        0 <= i <= s.len(),
    ensures
        i <= crate::smtp::grammar::route_rest(s, i) <= s.len(),
    decreases s.len() - i,
{
    if byte_at(s, i, 44) {
        match crate::smtp::grammar::at_domain(s, i + 1) {
            Some(e) => {
                if advances(s, i, e) {
                    lemma_route_rest_bounds(s, e);
                }
            },
            None => {},
        }
    }
}

/// A mailbox ends after its start and within the sequence.
pub proof fn lemma_mailbox_bounds(s: Seq<u8>, i: int)
    requires
        0 <= i,
    ensures
        crate::smtp::grammar::mailbox(s, i) matches Some(e) ==> i < e <= s.len(),
{
    lemma_local_part_bounds(s, i);
    match local_part(s, i) {
        Some(l) => {
            lemma_domain_bounds(s, l + 1);
            crate::smtp::window::lemma_address_literal_bounds(s, l + 1);
        },
        None => {},
    }
}

} // verus!
