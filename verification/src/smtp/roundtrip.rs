//! The round trip of a command: the line of a parsed command parses to
//! the same command.

use vstd::prelude::*;
use crate::bytes::{byte_at, is_alnum, lemma_span, span, Class};
use crate::smtp::command::{
    arguments, ehlo_argument, from_tag, helo_argument, key_index, line_ends,
    optional_string_argument, parameters, parse_command, put, string_argument, to_tag, verb,
    CommandView, ParamsView, Verb,
};
use crate::smtp::context::{
    lemma_atom_same, lemma_domain_same, lemma_local_part_same, lemma_quoted_content_bounds,
    lemma_quoted_string_same, lemma_same_part, lemma_span_exact, same, stops,
};
use crate::smtp::grammar::{
    address_literal, advances, at_domain, atom, bare_postmaster, domain, dot_string,
    esmtp_param, forward_path, letter_at, local_part, mailbox, path,
    quoted_string, reverse_path, route, string, subdomain,
};
use crate::smtp::serial::{
    bracketed, crlf, host_text, is_atom, is_domain, is_literal, line_with, line_with_optional,
    params_text, path_text, string_text, tagged, to_line,
};
use crate::smtp::window::{
    lemma_address_literal_bounds, lemma_address_literal_forms, lemma_address_literal_window,
    lemma_ipv6_addr_window, literal_v4, literal_v6, window,
};

verus! {

/// A mailbox with a domain is one wherever the same bytes stand and
/// neither a letter, a digit, a hyphen nor a dot follows.
proof fn lemma_mailbox_domain_same(s: Seq<u8>, i: int, t: Seq<u8>, j: int, e: int, l: int)
    requires
        0 <= i,
        local_part(s, i) == Some(l),
        byte_at(s, l, 64),
        domain(s, l + 1) == Some(e),
        same(s, i, t, j, e - i),
        stops(t, j + e - i, Class::Ldh),
        !byte_at(t, j + e - i, 46),
    ensures
        local_part(t, j) == Some(l - i + j),
        byte_at(t, l - i + j, 64),
        domain(t, l + 1 - i + j) == Some(j + e - i),
        i < e <= s.len(),
        s[i] != 64,
{
    let d = j - i;
    crate::smtp::context::lemma_local_part_bounds(s, i);
    crate::smtp::context::lemma_domain_bounds(s, l + 1);
    assert(s[l] == t[l - i + j]);
    lemma_same_part(s, i, t, j, e - i, 0, l - i);
    lemma_local_part_same(s, i, t, j, l);
    lemma_same_part(s, i, t, j, e - i, l + 1 - i, e - l - 1);
    lemma_domain_same(s, l + 1, t, l + 1 + d, e);
}

/// A mailbox with an address literal is one wherever the same bytes
/// stand.
proof fn lemma_mailbox_literal_same(s: Seq<u8>, i: int, t: Seq<u8>, j: int, e: int, l: int)
    requires
        0 <= i,
        local_part(s, i) == Some(l),
        byte_at(s, l, 64),
        domain(s, l + 1) is None,
        address_literal(s, l + 1) matches Some((a, b, n)) && n == e,
        same(s, i, t, j, e - i),
    ensures
        local_part(t, j) == Some(l - i + j),
        byte_at(t, l - i + j, 64),
        domain(t, l + 1 - i + j) is None,
        address_literal(t, l + 1 - i + j) matches Some((a, b, n)) && n == j + e - i,
        i < e <= s.len(),
        s[i] != 64,
{
    let d = j - i;
    crate::smtp::context::lemma_local_part_bounds(s, i);
    lemma_address_literal_bounds(s, l + 1);
    let (a, b, n) = address_literal(s, l + 1).unwrap();
    assert(s[l] == t[l - i + j]);
    assert(s[l + 1] == t[l + 1 - i + j]);
    lemma_same_part(s, i, t, j, e - i, 0, l - i);
    lemma_local_part_same(s, i, t, j, l);
    lemma_same_part(s, i, t, j, e - i, l + 1 - i, b - l);
    assert(window(s, l + 1, t, l + 1 + d, b - l - 1));
    lemma_address_literal_window(s, l + 1, t, l + 1 + d, b - l - 1);
    assert(subdomain(t, l + 1 + d) is None);
}

/// A mailbox is a mailbox wherever the same bytes stand and neither a
/// letter, a digit, a hyphen nor a dot follows.
pub proof fn lemma_mailbox_same(s: Seq<u8>, i: int, t: Seq<u8>, j: int, e: int)
    requires
        0 <= i,
        mailbox(s, i) == Some(e),
        same(s, i, t, j, e - i),
        stops(t, j + e - i, Class::Ldh),
        !byte_at(t, j + e - i, 46),
    ensures
        mailbox(t, j) == Some(j + e - i),
        i < e <= s.len(),
        s[i] != 64,
{
    let l = local_part(s, i).unwrap();
    if domain(s, l + 1) is Some {
        lemma_mailbox_domain_same(s, i, t, j, e, l);
    } else {
        lemma_mailbox_literal_same(s, i, t, j, e, l);
    }
}

/// The bytes of a line with one argument.
pub proof fn lemma_line_with(verb: Seq<u8>, argument: Seq<u8>)
    requires
        verb.len() == 4,
    ensures
        line_with(verb, argument).len() == 7 + argument.len(),
        forall|q: int| 0 <= q < 4 ==> line_with(verb, argument)[q] == verb[q],
        line_with(verb, argument)[4] == 32,
        same(argument, 0, line_with(verb, argument), 5, argument.len() as int),
        line_with(verb, argument)[5 + argument.len() as int] == 13,
        line_with(verb, argument)[6 + argument.len() as int] == 10,
{
    let t = line_with(verb, argument);
    assert(crlf().len() == 2);
    assert forall|p: int| 0 <= p < argument.len() implies #[trigger] argument[p] == t[p - 0 + 5] by {}
}

/// A line ends where CR LF and nothing else stands.
pub proof fn lemma_line_ends(t: Seq<u8>, p: int)
    requires
        0 <= p,
        p + 2 == t.len(),
        t[p] == 13,
        t[p + 1] == 10,
    ensures
        line_ends(t, p),
{
}

/// What a line starts with decides its verb.
pub proof fn lemma_verb(t: Seq<u8>, v: Verb)
    requires
        t.len() >= 4,
        match v {
            Verb::Ehlo => t[0] == 69 && t[1] == 72 && t[2] == 76 && t[3] == 79,
            Verb::Helo => t[0] == 72 && t[1] == 69 && t[2] == 76 && t[3] == 79,
            Verb::Mail => t[0] == 77 && t[1] == 65 && t[2] == 73 && t[3] == 76,
            Verb::Rcpt => t[0] == 82 && t[1] == 67 && t[2] == 80 && t[3] == 84,
            Verb::Data => t[0] == 68 && t[1] == 65 && t[2] == 84 && t[3] == 65,
            Verb::Rset => t[0] == 82 && t[1] == 83 && t[2] == 69 && t[3] == 84,
            Verb::Vrfy => t[0] == 86 && t[1] == 82 && t[2] == 70 && t[3] == 89,
            Verb::Expn => t[0] == 69 && t[1] == 88 && t[2] == 80 && t[3] == 78,
            Verb::Help => t[0] == 72 && t[1] == 69 && t[2] == 76 && t[3] == 80,
            Verb::Noop => t[0] == 78 && t[1] == 79 && t[2] == 79 && t[3] == 80,
            Verb::Quit => t[0] == 81 && t[1] == 85 && t[2] == 73 && t[3] == 84,
        },
    ensures
        verb(t) == Some(v),
{
}

/// The text of a part of a sequence stands in the sequence.
pub proof fn lemma_subrange_same(s: Seq<u8>, a: int, b: int)
    requires
        0 <= a <= b <= s.len(),
    ensures
        same(s, a, s.subrange(a, b), 0, b - a),
        same(s.subrange(a, b), 0, s, a, b - a),
{
    let d = s.subrange(a, b);
    assert forall|p: int| a <= p < b implies #[trigger] s[p] == d[p - a + 0] by {}
    assert forall|p: int| 0 <= p < b - a implies #[trigger] d[p] == s[p - 0 + a] by {}
}

/// Where `t` holds the text `d` at `j`, the part of `t` there is `d`.
pub proof fn lemma_same_subrange(d: Seq<u8>, t: Seq<u8>, j: int)
    requires
        same(d, 0, t, j, d.len() as int),
    ensures
        t.subrange(j, j + d.len()) == d,
{
    assert forall|q: int| 0 <= q < d.len() implies t.subrange(j, j + d.len())[q] == d[q] by {
        assert(d[q] == t[q - 0 + j]);
    }
    assert(t.subrange(j, j + d.len()) =~= d);
}

/// Being the same text carries over from one sequence to a third.
pub proof fn lemma_same_trans(
    s: Seq<u8>,
    i: int,
    d: Seq<u8>,
    k: int,
    t: Seq<u8>,
    j: int,
    n: int,
)
    requires
        same(s, i, d, k, n),
        same(d, k, t, j, n),
    ensures
        same(s, i, t, j, n),
{
    assert forall|p: int| i <= p < i + n implies #[trigger] s[p] == t[p - i + j] by {
        assert(s[p] == d[p - i + k]);
        assert(d[p - i + k] == t[(p - i + k) - k + j]);
    }
}

/// The line of a `HELO` with a parsed domain parses to that domain.
proof fn lemma_domain_line(s: Seq<u8>, e: int, verb: Seq<u8>)
    requires
        domain(s, 5) == Some(e),
        verb.len() == 4,
    ensures
        domain(line_with(verb, s.subrange(5, e)), 5) == Some(e),
        line_with(verb, s.subrange(5, e)).subrange(5, e) == s.subrange(5, e),
        line_ends(line_with(verb, s.subrange(5, e)), e),
        is_domain(s.subrange(5, e)),
        byte_at(line_with(verb, s.subrange(5, e)), 4, 32),
        5 < e <= s.len(),
{
    crate::smtp::context::lemma_domain_bounds(s, 5);
    let d = s.subrange(5, e);
    let t = line_with(verb, d);
    lemma_line_with(verb, d);
    lemma_subrange_same(s, 5, e);
    lemma_same_trans(s, 5, d, 0, t, 5, e - 5);
    lemma_domain_same(s, 5, t, 5, e);
    lemma_domain_same(s, 5, d, 0, e);
    lemma_same_subrange(d, t, 5);
    lemma_line_ends(t, e);
}

/// The line of a command with a parsed string parses to that string.
proof fn lemma_string_line(s: Seq<u8>, verb: Seq<u8>)
    requires
        string(s, 5) is Some,
        verb.len() == 4,
    ensures
        ({
            let (a, b, n) = string(s, 5).unwrap();
            let v = s.subrange(a, b);
            let t = line_with(verb, string_text(v));
            &&& byte_at(t, 4, 32)
            &&& 5 <= a <= b <= s.len()
            &&& string(t, 5) matches Some((ta, tb, tn)) && t.subrange(ta, tb) == v && line_ends(
                t,
                tn,
            )
        }),
{
    let (a, b, n) = string(s, 5).unwrap();
    let v = s.subrange(a, b);
    let t = line_with(verb, string_text(v));
    lemma_line_with(verb, string_text(v));
    if atom(s, 5) is Some {
        lemma_span(s, 5, Class::Atext);
        lemma_subrange_same(s, 5, b);
        lemma_atom_same(s, 5, v, 0, b);
        assert(is_atom(v));
        lemma_atom_same(v, 0, t, 5, v.len() as int);
        lemma_same_subrange(v, t, 5);
        lemma_line_ends(t, 5 + v.len() as int);
    } else {
        lemma_quoted_content_bounds(s, 6);
        assert(a == 6 && b == n - 1);
        if is_atom(v) {
            lemma_atom_same(v, 0, t, 5, v.len() as int);
            lemma_same_subrange(v, t, 5);
            lemma_line_ends(t, 5 + v.len() as int);
        } else {
            let q = string_text(v);
            assert(q.len() == v.len() + 2);
            assert(q[0] == 34);
            assert(q[v.len() as int + 1] == 34);
            assert forall|p: int| 5 <= p < n implies #[trigger] s[p] == q[p - 5 + 0] by {
                if 6 <= p < n - 1 {
                    assert(q[p - 5] == v[p - 6]);
                }
            }
            assert(same(s, 5, q, 0, n - 5));
            lemma_same_trans(s, 5, q, 0, t, 5, n - 5);
            lemma_quoted_string_same(s, 5, t, 5, n);
            assert(t[5] == q[0]);
            assert(atom(t, 5) is None);
            assert forall|p: int| 0 <= p < v.len() implies #[trigger] v[p] == t[p - 0 + 6] by {
                assert(q[p + 1] == t[(p + 1) - 0 + 5]);
            }
            lemma_same_subrange(v, t, 6);
            lemma_line_ends(t, n);
        }
    }
}

/// What an argument of `EHLO` is read as: the text of the argument and
/// whether the line ends after it.
pub open spec fn reads_host(t: Seq<u8>, d: Seq<u8>) -> bool {
    ehlo_argument(t) matches Some((ta, tb, tn)) && t.subrange(ta, tb) == d && line_ends(t, tn)
}

proof fn lemma_host_line_domain(d: Seq<u8>, verb: Seq<u8>)
    requires
        is_domain(d),
        verb.len() == 4,
    ensures
        reads_host(line_with(verb, d), d),
{
    let len = d.len() as int;
    let t = line_with(verb, d);
    lemma_line_with(verb, d);
    lemma_domain_same(d, 0, t, 5, len);
    lemma_same_subrange(d, t, 5);
    lemma_line_ends(t, 5 + len);
}

proof fn lemma_host_line_literal(d: Seq<u8>, verb: Seq<u8>)
    requires
        is_literal(d),
        verb.len() == 4,
    ensures
        reads_host(line_with(verb, bracketed(d)), d),
{
    let len = d.len() as int;
    let br = bracketed(d);
    let t = line_with(verb, br);
    lemma_line_with(verb, br);
    assert(br.len() == len + 2);
    assert(br[0] == 91);
    assert(br[len + 1] == 93);
    assert(t[5] == br[0]);
    assert(subdomain(t, 5) is None);
    assert(window(br, 0, t, 5, len + 1));
    lemma_address_literal_window(br, 0, t, 5, len + 1);
    assert forall|p: int| 0 <= p < len implies #[trigger] d[p] == t[p - 0 + 6] by {
        assert(br[p + 1] == t[(p + 1) - 0 + 5]);
    }
    lemma_same_subrange(d, t, 6);
    lemma_line_ends(t, 7 + len);
}

/// A literal of the first or the third form gives its text back between
/// brackets.
proof fn lemma_plain_literal(s: Seq<u8>, i: int)
    requires
        address_literal(s, i) matches Some((a, b, n)) && a == i + 1,
    ensures
        ({
            let (a, b, n) = address_literal(s, i).unwrap();
            is_literal(s.subrange(a, b))
        }),
{
    let (a, b, n) = address_literal(s, i).unwrap();
    lemma_address_literal_bounds(s, i);
    let d = s.subrange(a, b);
    let br = bracketed(d);
    assert(br.len() == d.len() + 2);
    assert forall|p: int| i <= p < b + 1 implies #[trigger] s[p] == br[p - i + 0] by {
        if i + 1 <= p < b {
            assert(br[p - i] == d[p - i - 1]);
        }
    }
    assert(window(s, i, br, 0, b - i));
    lemma_address_literal_window(s, i, br, 0, b - i);
}

/// A literal of the second form gives its text back between `[IPv6:`
/// and `]`.
proof fn lemma_host_line_tagged(s: Seq<u8>, b: int, verb: Seq<u8>)
    requires
        crate::smtp::grammar::ipv6_addr(s, 11) == Some(b),
        verb.len() == 4,
    ensures
        reads_host(line_with(verb, tagged(s.subrange(11, b))), s.subrange(11, b)),
{
    crate::smtp::window::lemma_ipv6_addr_ends(s, 11);
    let d = s.subrange(11, b);
    let len = d.len() as int;
    let tg = tagged(d);
    let t = line_with(verb, tg);
    lemma_line_with(verb, tg);
    assert(tg.len() == len + 7);
    assert(t[5] == tg[0]);
    assert(t[6] == tg[1]);
    assert(t[7] == tg[2]);
    assert(t[8] == tg[3]);
    assert(t[9] == tg[4]);
    assert(t[10] == tg[5]);
    assert(subdomain(t, 5) is None);
    lemma_address_literal_forms(t, 5);
    assert(crate::smtp::grammar::snum(t, 6) is None);
    assert(literal_v4(t, 5) is None);
    assert(crate::smtp::grammar::ipv6_tag(t, 6));
    assert forall|p: int| 11 <= p < b + 1 implies #[trigger] s[p] == t[p - 11 + 11] by {
        assert(tg[p - 5] == t[(p - 5) - 0 + 5]);
        if p < b {
            assert(tg[p - 5] == d[p - 11]);
        }
    }
    assert(window(s, 11, t, 11, b - 11));
    lemma_ipv6_addr_window(s, 11, t, 11, b - 11, 11);
    assert(literal_v6(t, 5) == Some(b));
    assert forall|p: int| 0 <= p < len implies #[trigger] d[p] == t[p - 0 + 11] by {
        assert(tg[p + 6] == t[(p + 6) - 0 + 5]);
    }
    lemma_same_subrange(d, t, 11);
    lemma_line_ends(t, b + 1);
}

/// The line of an `EHLO` with a parsed argument parses to that argument.
proof fn lemma_host_line(s: Seq<u8>, verb: Seq<u8>)
    requires
        ehlo_argument(s) is Some,
        verb.len() == 4,
    ensures
        ({
            let (a, b, n) = ehlo_argument(s).unwrap();
            let d = s.subrange(a, b);
            reads_host(line_with(verb, host_text(d)), d)
        }),
{
    let (a, b, n) = ehlo_argument(s).unwrap();
    let d = s.subrange(a, b);
    if domain(s, 5) is Some {
        lemma_domain_line(s, b, verb);
        lemma_host_line_domain(d, verb);
    } else if is_domain(d) {
        lemma_host_line_domain(d, verb);
    } else if is_literal(d) {
        lemma_host_line_literal(d, verb);
    } else {
        lemma_address_literal_forms(s, 5);
        if a == 6 {
            lemma_plain_literal(s, 5);
        }
        lemma_host_line_tagged(s, b, verb);
    }
}

/// Whether `k` is a keyword and `v` a value of an ESMTP parameter.
pub open spec fn valid_param(k: Seq<u8>, v: Seq<u8>) -> bool {
    &&& k.len() >= 1
    &&& is_alnum(k[0])
    &&& forall|q: int| 1 <= q < k.len() ==> Class::Ldh.has(#[trigger] k[q])
    &&& v.len() >= 1
    &&& forall|q: int| 0 <= q < v.len() ==> Class::EsmtpValue.has(#[trigger] v[q])
}

/// Whether every pair of `ps` is a keyword with a value.
pub open spec fn valid_params(ps: ParamsView) -> bool {
    forall|n: int| 0 <= n < ps.len() ==> valid_param((#[trigger] ps[n]).0, ps[n].1)
}

/// Whether no keyword occurs twice in `ps`.
pub open spec fn distinct_keys(ps: ParamsView) -> bool {
    forall|a: int, b: int| 0 <= a < b < ps.len() ==> (#[trigger] ps[a]).0 != (#[trigger] ps[b]).0
}

/// What `key_index` finds holds the key, and where it finds nothing no
/// entry holds it.
pub proof fn lemma_key_index(ps: ParamsView, key: Seq<u8>, from: int)
    requires
        0 <= from,
    ensures
        match key_index(ps, key, from) {
            Some(n) => from <= n < ps.len() && ps[n].0 == key,
            None => forall|k: int| from <= k < ps.len() ==> (#[trigger] ps[k]).0 != key,
        },
    decreases ps.len() - from,
{
    if from < ps.len() && ps[from].0 != key {
        lemma_key_index(ps, key, from + 1);
    }
}

/// Putting a parameter keeps the parameters valid and their keywords
/// distinct.
pub proof fn lemma_put_valid(ps: ParamsView, k: Seq<u8>, v: Seq<u8>)
    requires
        valid_params(ps),
        distinct_keys(ps),
        valid_param(k, v),
    ensures
        valid_params(put(ps, k, v)),
        distinct_keys(put(ps, k, v)),
{
    lemma_key_index(ps, k, 0);
    let after = put(ps, k, v);
    match key_index(ps, k, 0) {
        Some(n) => {
            assert forall|m: int| 0 <= m < after.len() implies valid_param(
                (#[trigger] after[m]).0,
                after[m].1,
            ) by {
                if m != n {
                    assert(after[m] == ps[m]);
                } else {
                    assert(after[m].0 == ps[n].0);
                }
            }
            assert forall|a: int, b: int| 0 <= a < b < after.len() implies (#[trigger] after[a]).0
                != (#[trigger] after[b]).0 by {
                assert(after[a].0 == ps[a].0);
                assert(after[b].0 == ps[b].0);
            }
        },
        None => {
            assert forall|m: int| 0 <= m < after.len() implies valid_param(
                (#[trigger] after[m]).0,
                after[m].1,
            ) by {
                if m < ps.len() {
                    assert(after[m] == ps[m]);
                }
            }
            assert forall|a: int, b: int| 0 <= a < b < after.len() implies (#[trigger] after[a]).0
                != (#[trigger] after[b]).0 by {
                assert(after[a] == ps[a]);
                if b < ps.len() {
                    assert(after[b] == ps[b]);
                }
            }
        },
    }
}

/// A parameter that was read is a keyword with a value.
pub proof fn lemma_esmtp_param_valid(s: Seq<u8>, i: int)
    requires
        0 <= i,
    ensures
        esmtp_param(s, i) matches Some((k, v)) ==> i < k && k + 1 < v <= s.len() && valid_param(
            s.subrange(i, k),
            s.subrange(k + 1, v),
        ),
{
    if i < s.len() && is_alnum(s[i]) {
        lemma_span(s, i + 1, Class::Ldh);
        let k = span(s, i + 1, Class::Ldh);
        if byte_at(s, k, 61) {
            lemma_span(s, k + 1, Class::EsmtpValue);
            let v = span(s, k + 1, Class::EsmtpValue);
            if v > k + 1 {
                let key = s.subrange(i, k);
                let value = s.subrange(k + 1, v);
                assert(key[0] == s[i]);
                assert forall|q: int| 1 <= q < key.len() implies Class::Ldh.has(
                    #[trigger] key[q],
                ) by {
                    assert(key[q] == s[i + q]);
                }
                assert forall|q: int| 0 <= q < value.len() implies Class::EsmtpValue.has(
                    #[trigger] value[q],
                ) by {
                    assert(value[q] == s[k + 1 + q]);
                }
            }
        }
    }
}

/// The parameters that were read are keywords with values, and no
/// keyword occurs twice among them.
pub proof fn lemma_parameters_valid(s: Seq<u8>, i: int, acc: ParamsView)
    requires
        0 <= i <= s.len(),
        valid_params(acc),
        distinct_keys(acc),
    ensures
        valid_params(parameters(s, i, acc).1),
        distinct_keys(parameters(s, i, acc).1),
        i <= parameters(s, i, acc).0 <= s.len(),
    decreases s.len() - i,
{
    if byte_at(s, i, 32) {
        lemma_esmtp_param_valid(s, i + 1);
        match esmtp_param(s, i + 1) {
            Some((k, v)) => {
                if advances(s, i, v) {
                    lemma_put_valid(acc, s.subrange(i + 1, k), s.subrange(k + 1, v));
                    lemma_parameters_valid(
                        s,
                        v,
                        put(acc, s.subrange(i + 1, k), s.subrange(k + 1, v)),
                    );
                }
            },
            None => {},
        }
    }
}

/// The text of a list of parameters that starts with a pair.
pub proof fn lemma_params_text(rest: ParamsView)
    requires
        rest.len() > 0,
    ensures
        ({
            let k = rest[0].0;
            let v = rest[0].1;
            let x = params_text(rest);
            let more = params_text(rest.drop_first());
            &&& x.len() == 2 + k.len() + v.len() + more.len()
            &&& x[0] == 32
            &&& same(k, 0, x, 1, k.len() as int)
            &&& x[1 + k.len() as int] == 61
            &&& same(v, 0, x, 2 + k.len() as int, v.len() as int)
            &&& same(more, 0, x, 2 + k.len() as int + v.len() as int, more.len() as int)
        }),
{
    let k = rest[0].0;
    let v = rest[0].1;
    let x = params_text(rest);
    let more = params_text(rest.drop_first());
    assert(x == seq![32u8] + k + seq![61u8] + v + more);
    assert forall|p: int| 0 <= p < k.len() implies #[trigger] k[p] == x[p - 0 + 1] by {}
    assert forall|p: int| 0 <= p < v.len() implies #[trigger] v[p] == x[p - 0 + (2
        + k.len() as int)] by {}
    assert forall|p: int| 0 <= p < more.len() implies #[trigger] more[p] == x[p - 0 + (2
        + k.len() as int + v.len() as int)] by {}
}

/// A keyword and a value that stand in `t` after a space and around an
/// equals sign, with a space or CR after them, are read as a parameter.
proof fn lemma_param_built(t: Seq<u8>, p: int, k: Seq<u8>, v: Seq<u8>)
    requires
        0 <= p,
        valid_param(k, v),
        p + 2 + k.len() + v.len() < t.len(),
        t[p] == 32,
        same(k, 0, t, p + 1, k.len() as int),
        t[p + 1 + k.len()] == 61,
        same(v, 0, t, p + 2 + k.len(), v.len() as int),
        t[p + 2 + k.len() + v.len()] == 32 || t[p + 2 + k.len() + v.len()] == 13,
    ensures
        esmtp_param(t, p + 1) == Some((p + 1 + k.len(), p + 2 + k.len() + v.len())),
        t.subrange(p + 1, p + 1 + k.len()) == k,
        t.subrange(p + 2 + k.len(), p + 2 + k.len() + v.len()) == v,
{
    let kl = k.len() as int;
    let vl = v.len() as int;
    assert(k[0] == t[0 - 0 + (p + 1)]);
    assert forall|q: int| p + 2 <= q < p + 1 + kl implies Class::Ldh.has(#[trigger] t[q]) by {
        assert(k[q - p - 1] == t[(q - p - 1) - 0 + (p + 1)]);
    }
    lemma_span_exact(t, p + 2, p + 1 + kl, Class::Ldh);
    assert forall|q: int| p + 2 + kl <= q < p + 2 + kl + vl implies Class::EsmtpValue.has(
        #[trigger] t[q],
    ) by {
        assert(v[q - p - 2 - kl] == t[(q - p - 2 - kl) - 0 + (p + 2 + kl)]);
    }
    lemma_span_exact(t, p + 2 + kl, p + 2 + kl + vl, Class::EsmtpValue);
    lemma_same_subrange(k, t, p + 1);
    lemma_same_subrange(v, t, p + 2 + kl);
}

/// A keyword that no pair of `acc` holds is put at the end.
proof fn lemma_put_new(acc: ParamsView, rest: ParamsView)
    requires
        rest.len() > 0,
        distinct_keys(acc + rest),
    ensures
        put(acc, rest[0].0, rest[0].1) == acc.push(rest[0]),
        acc.push(rest[0]) + rest.drop_first() == acc + rest,
{
    let k = rest[0].0;
    lemma_key_index(acc, k, 0);
    assert forall|n: int| 0 <= n < acc.len() implies (#[trigger] acc[n]).0 != k by {
        assert((acc + rest)[n] == acc[n]);
        assert((acc + rest)[acc.len() as int] == rest[0]);
    }
    assert(acc.push(rest[0]) + rest.drop_first() =~= acc + rest);
}

/// The pairs after the first of valid pairs are valid.
proof fn lemma_valid_tail(rest: ParamsView)
    requires
        rest.len() > 0,
        valid_params(rest),
    ensures
        valid_params(rest.drop_first()),
        valid_param(rest[0].0, rest[0].1),
{
    let tail = rest.drop_first();
    assert forall|n: int| 0 <= n < tail.len() implies valid_param(
        (#[trigger] tail[n]).0,
        tail[n].1,
    ) by {
        assert(tail[n] == rest[n + 1]);
    }
}

/// The text of valid parameters with distinct keywords, with CR after
/// it, is read as those parameters.
pub proof fn lemma_parameters_built(t: Seq<u8>, p: int, acc: ParamsView, rest: ParamsView)
    requires
        0 <= p,
        valid_params(rest),
        distinct_keys(acc + rest),
        same(params_text(rest), 0, t, p, params_text(rest).len() as int),
        byte_at(t, p + params_text(rest).len(), 13),
    ensures
        parameters(t, p, acc) == (p + params_text(rest).len(), acc + rest),
    decreases rest.len(),
{
    let x = params_text(rest);
    if rest.len() == 0 {
        assert(acc + rest =~= acc);
    } else {
        let k = rest[0].0;
        let v = rest[0].1;
        let tail = rest.drop_first();
        let more = params_text(tail);
        let kl = k.len() as int;
        let vl = v.len() as int;
        let next = p + 2 + kl + vl;
        lemma_params_text(rest);
        lemma_valid_tail(rest);
        assert(x[0] == t[0 - 0 + p]);
        assert(x[1 + kl] == t[(1 + kl) - 0 + p]);
        lemma_same_trans(k, 0, x, 1, t, p + 1, kl);
        lemma_same_trans(v, 0, x, 2 + kl, t, p + 2 + kl, vl);
        lemma_same_trans(more, 0, x, 2 + kl + vl, t, next, more.len() as int);
        if tail.len() > 0 {
            lemma_params_text(tail);
            assert(more[0] == t[0 - 0 + next]);
        }
        lemma_param_built(t, p, k, v);
        lemma_put_new(acc, rest);
        lemma_parameters_built(t, next, acc.push(rest[0]), tail);
    }
}

/// Whether `t` holds at `j` the path with the text `d` between angle
/// brackets.
pub open spec fn holds_path(t: Seq<u8>, j: int, d: Seq<u8>) -> bool {
    &&& 0 <= j
    &&& j + d.len() + 2 <= t.len()
    &&& t[j] == 60
    &&& same(d, 0, t, j + 1, d.len() as int)
    &&& t[j + 1 + d.len()] == 62
}

/// A parsed path, written without its source route, is read as the same
/// path.
proof fn lemma_path_built(s: Seq<u8>, i: int, t: Seq<u8>, j: int)
    requires
        0 <= i,
        path(s, i) is Some,
        holds_path(t, j, s.subrange(path(s, i).unwrap().0, path(s, i).unwrap().1)),
    ensures
        ({
            let (a, b, n) = path(s, i).unwrap();
            &&& 0 <= a < b <= s.len()
            &&& path(t, j) == Some((j + 1, j + 1 + (b - a), j + 2 + (b - a)))
            &&& mailbox(t, j + 1) == Some(j + 1 + (b - a))
        }),
{
    let (a, b, n) = path(s, i).unwrap();
    crate::smtp::context::lemma_route_bounds(s, i + 1);
    let d = s.subrange(a, b);
    crate::smtp::context::lemma_mailbox_bounds(s, a);
    lemma_subrange_same(s, a, b);
    lemma_same_trans(s, a, d, 0, t, j + 1, b - a);
    lemma_mailbox_same(s, a, t, j + 1, b);
    assert(s[a] == t[a - a + (j + 1)]);
    assert(at_domain(t, j + 1) is None);
}

/// The empty path is read as the empty path.
proof fn lemma_empty_path_built(t: Seq<u8>, j: int)
    requires
        0 <= j,
        j + 2 <= t.len(),
        t[j] == 60,
        t[j + 1] == 62,
    ensures
        reverse_path(t, j) == Some((j + 1, j + 1, j + 2)),
{
    assert(at_domain(t, j + 1) is None);
    assert(atom(t, j + 1) is None);
    assert(quoted_string(t, j + 1) is None);
    assert(local_part(t, j + 1) is None);
    assert(mailbox(t, j + 1) is None);
}

/// A parsed reverse path, written anew, is read as the same path.
proof fn lemma_reverse_path_built(s: Seq<u8>, i: int, t: Seq<u8>, j: int)
    requires
        0 <= i,
        reverse_path(s, i) is Some,
        holds_path(
            t,
            j,
            s.subrange(reverse_path(s, i).unwrap().0, reverse_path(s, i).unwrap().1),
        ),
    ensures
        ({
            let (a, b, n) = reverse_path(s, i).unwrap();
            &&& 0 <= a <= b <= s.len()
            &&& 0 <= n <= s.len()
            &&& reverse_path(t, j) == Some((j + 1, j + 1 + (b - a), j + 2 + (b - a)))
        }),
{
    if path(s, i) is Some {
        lemma_path_built(s, i, t, j);
    } else {
        lemma_empty_path_built(t, j);
    }
}

/// A parsed forward path, written anew, is read as the same path.
proof fn lemma_forward_path_built(s: Seq<u8>, i: int, t: Seq<u8>, j: int)
    requires
        0 <= i,
        forward_path(s, i) is Some,
        holds_path(
            t,
            j,
            s.subrange(forward_path(s, i).unwrap().0, forward_path(s, i).unwrap().1),
        ),
    ensures
        ({
            let (a, b, n) = forward_path(s, i).unwrap();
            &&& 0 <= a <= b <= s.len()
            &&& 0 <= n <= s.len()
            &&& forward_path(t, j) == Some((j + 1, j + 1 + (b - a), j + 2 + (b - a)))
        }),
{
    let (a, b, n) = forward_path(s, i).unwrap();
    let d = s.subrange(a, b);
    if bare_postmaster(s, i) {
        assert forall|q: int| 0 <= q < 10 implies #[trigger] d[q] == s[i + 1 + q] && d[q] == t[j
            + 1 + q] by {
            assert(d[q] == t[q - 0 + (j + 1)]);
        }
        assert(d[0] == t[j + 1] && d[1] == t[j + 2] && d[2] == t[j + 3] && d[3] == t[j + 4]
            && d[4] == t[j + 5] && d[5] == t[j + 6] && d[6] == t[j + 7] && d[7] == t[j + 8]
            && d[8] == t[j + 9] && d[9] == t[j + 10]);
        assert(bare_postmaster(t, j));
    } else {
        lemma_path_built(s, i, t, j);
        if bare_postmaster(t, j) {
            assert forall|q: int| j + 1 <= q < j + 11 implies Class::Atext.has(#[trigger] t[q]) by {
                if q == j + 1 {
                    assert(letter_at(t, j + 1, 112));
                } else if q == j + 2 {
                    assert(letter_at(t, j + 2, 111));
                } else if q == j + 3 {
                    assert(letter_at(t, j + 3, 115));
                } else if q == j + 4 {
                    assert(letter_at(t, j + 4, 116));
                } else if q == j + 5 {
                    assert(letter_at(t, j + 5, 109));
                } else if q == j + 6 {
                    assert(letter_at(t, j + 6, 97));
                } else if q == j + 7 {
                    assert(letter_at(t, j + 7, 115));
                } else if q == j + 8 {
                    assert(letter_at(t, j + 8, 116));
                } else if q == j + 9 {
                    assert(letter_at(t, j + 9, 101));
                } else {
                    assert(letter_at(t, j + 10, 114));
                }
            }
            lemma_span_exact(t, j + 1, j + 11, Class::Atext);
            assert(atom(t, j + 1) == Some(j + 11));
            assert(dot_string(t, j + 1) == Some(j + 11));
            assert(mailbox(t, j + 1) is None);
            assert(false);
        }
    }
}

/// The bytes of a line with a path and parameters.
proof fn lemma_envelope_line(head: Seq<u8>, d: Seq<u8>, ps: ParamsView)
    ensures
        ({
            let t = head + path_text(d) + params_text(ps) + crlf();
            let h = head.len() as int;
            let x = params_text(ps);
            &&& t.len() == h + d.len() + 2 + x.len() + 2
            &&& forall|q: int| 0 <= q < h ==> t[q] == head[q]
            &&& holds_path(t, h, d)
            &&& same(x, 0, t, h + d.len() + 2, x.len() as int)
            &&& t[h + d.len() + 2 + x.len()] == 13
            &&& t[h + d.len() + 2 + x.len() + 1] == 10
        }),
{
    let t = head + path_text(d) + params_text(ps) + crlf();
    let h = head.len() as int;
    let x = params_text(ps);
    let pt = path_text(d);
    assert(pt.len() == d.len() + 2);
    assert(crlf().len() == 2);
    assert(t[h] == pt[0]);
    assert(t[h + 1 + d.len()] == pt[d.len() as int + 1]);
    assert forall|p: int| 0 <= p < d.len() implies #[trigger] d[p] == t[p - 0 + (h + 1)] by {
        assert(pt[p + 1] == d[p]);
        assert(t[h + (p + 1)] == pt[p + 1]);
    }
    assert forall|p: int| 0 <= p < x.len() implies #[trigger] x[p] == t[p - 0 + (h + d.len() + 2)] by {}
}

/// The line of a parsed `MAIL` parses to the same command.
proof fn lemma_mail_line(s: Seq<u8>)
    requires
        reverse_path(s, 10) is Some,
    ensures
        ({
            let (a, b, n) = reverse_path(s, 10).unwrap();
            let c = CommandView::MAIL {
                reverse_path: s.subrange(a, b),
                mail_parameters: parameters(s, n, Seq::empty()).1,
            };
            parse_command(to_line(c)) == Ok::<CommandView, u16>(c)
        }),
{
    let (a, b, n) = reverse_path(s, 10).unwrap();
    let d = s.subrange(a, b);
    let ps = parameters(s, n, Seq::empty()).1;
    let c = CommandView::MAIL { reverse_path: d, mail_parameters: ps };
    let head = seq![77u8, 65u8, 73u8, 76u8, 32u8, 70u8, 82u8, 79u8, 77u8, 58u8];
    let t = to_line(c);
    assert(t == head + path_text(d) + params_text(ps) + crlf());
    lemma_envelope_line(head, d, ps);
    assert(t[0] == head[0] && t[1] == head[1] && t[2] == head[2] && t[3] == head[3] && t[4]
        == head[4] && t[5] == head[5] && t[6] == head[6] && t[7] == head[7] && t[8] == head[8]
        && t[9] == head[9]);
    lemma_verb(t, Verb::Mail);
    assert(from_tag(t));
    lemma_reverse_path_built(s, 10, t, 10);
    let len = d.len() as int;
    lemma_same_subrange(d, t, 11);
    lemma_parameters_valid(s, n, Seq::empty());
    assert(Seq::<(Seq<u8>, Seq<u8>)>::empty() + ps =~= ps);
    lemma_parameters_built(t, 12 + len, Seq::empty(), ps);
    lemma_line_ends(t, 12 + len + params_text(ps).len());
}

/// The line of a parsed `RCPT` parses to the same command.
proof fn lemma_rcpt_line(s: Seq<u8>)
    requires
        forward_path(s, 8) is Some,
    ensures
        ({
            let (a, b, n) = forward_path(s, 8).unwrap();
            let c = CommandView::RCPT {
                forward_path: s.subrange(a, b),
                rcpt_parameters: parameters(s, n, Seq::empty()).1,
            };
            parse_command(to_line(c)) == Ok::<CommandView, u16>(c)
        }),
{
    let (a, b, n) = forward_path(s, 8).unwrap();
    let d = s.subrange(a, b);
    let ps = parameters(s, n, Seq::empty()).1;
    let c = CommandView::RCPT { forward_path: d, rcpt_parameters: ps };
    let head = seq![82u8, 67u8, 80u8, 84u8, 32u8, 84u8, 79u8, 58u8];
    let t = to_line(c);
    assert(t == head + path_text(d) + params_text(ps) + crlf());
    lemma_envelope_line(head, d, ps);
    assert(t[0] == head[0] && t[1] == head[1] && t[2] == head[2] && t[3] == head[3] && t[4]
        == head[4] && t[5] == head[5] && t[6] == head[6] && t[7] == head[7]);
    lemma_verb(t, Verb::Rcpt);
    assert(to_tag(t));
    lemma_forward_path_built(s, 8, t, 8);
    let len = d.len() as int;
    lemma_same_subrange(d, t, 9);
    lemma_parameters_valid(s, n, Seq::empty());
    assert(Seq::<(Seq<u8>, Seq<u8>)>::empty() + ps =~= ps);
    lemma_parameters_built(t, 10 + len, Seq::empty(), ps);
    lemma_line_ends(t, 10 + len + params_text(ps).len());
}

/// The line of a command without arguments parses to the command.
proof fn lemma_bare_line(c: CommandView)
    requires
        c is DATA || c is RSET || c is QUIT,
    ensures
        parse_command(to_line(c)) == Ok::<CommandView, u16>(c),
{
    let t = to_line(c);
    assert(crlf().len() == 2);
    assert(t.len() == 6);
    match c {
        CommandView::DATA => {
            lemma_verb(t, Verb::Data);
        },
        CommandView::RSET => {
            lemma_verb(t, Verb::Rset);
        },
        _ => {
            lemma_verb(t, Verb::Quit);
        },
    }
    lemma_line_ends(t, 4);
}

/// A line with a verb, arguments that make a command, and the end of the
/// line after them parses to that command.
proof fn lemma_parses(t: Seq<u8>, v: Verb, c: CommandView, n: int)
    requires
        verb(t) == Some(v),
        arguments(t, v) == Some((c, n)),
        line_ends(t, n),
    ensures
        parse_command(t) == Ok::<CommandView, u16>(c),
{
}

/// The line of a parsed `HELO` parses to the same command.
proof fn lemma_helo_line(s: Seq<u8>)
    requires
        helo_argument(s) is Some,
    ensures
        ({
            let (a, b, n) = helo_argument(s).unwrap();
            let c = CommandView::HELO { domain: s.subrange(a, b) };
            parse_command(to_line(c)) == Ok::<CommandView, u16>(c)
        }),
{
    let (a, b, n) = helo_argument(s).unwrap();
    let verb = seq![72u8, 69u8, 76u8, 79u8];
    let d = s.subrange(a, b);
    let c = CommandView::HELO { domain: d };
    let t = line_with(verb, d);
    assert(to_line(c) == t);
    assert(crate::smtp::command::verb(t) == Some(Verb::Helo)) by {
        lemma_line_with(verb, d);
        lemma_verb(t, Verb::Helo);
    }
    assert(helo_argument(t) == Some((5int, b, b)) && t.subrange(5, b) == d && line_ends(t, b)) by {
        lemma_domain_line(s, b, verb);
    }
    assert(arguments(t, Verb::Helo) == Some((c, b)));
    lemma_parses(t, Verb::Helo, c, b);
}

/// The line of a parsed `EHLO` parses to the same command.
proof fn lemma_ehlo_line(s: Seq<u8>)
    requires
        ehlo_argument(s) is Some,
    ensures
        ({
            let (a, b, n) = ehlo_argument(s).unwrap();
            let c = CommandView::EHLO { domain: s.subrange(a, b) };
            parse_command(to_line(c)) == Ok::<CommandView, u16>(c)
        }),
{
    let (a, b, n) = ehlo_argument(s).unwrap();
    let verb = seq![69u8, 72u8, 76u8, 79u8];
    let d = s.subrange(a, b);
    let t = line_with(verb, host_text(d));
    lemma_host_line(s, verb);
    lemma_line_with(verb, host_text(d));
    lemma_verb(t, Verb::Ehlo);
}

/// What a string argument is read as: the text of the argument and
/// whether the line ends after it.
pub open spec fn reads_string(t: Seq<u8>, v: Seq<u8>) -> bool {
    string_argument(t) matches Some((ta, tb, tn)) && t.subrange(ta, tb) == v && line_ends(t, tn)
}

/// The line with a parsed string as its argument reads as that string.
proof fn lemma_string_argument_line(s: Seq<u8>, verb: Seq<u8>)
    requires
        string_argument(s) is Some,
        verb.len() == 4,
    ensures
        ({
            let (a, b, n) = string_argument(s).unwrap();
            reads_string(line_with(verb, string_text(s.subrange(a, b))), s.subrange(a, b))
        }),
{
    lemma_string_line(s, verb);
}

/// The line of a parsed `VRFY` parses to the same command.
proof fn lemma_vrfy_line(s: Seq<u8>)
    requires
        string_argument(s) is Some,
    ensures
        ({
            let (a, b, n) = string_argument(s).unwrap();
            let c = CommandView::VRFY { string: s.subrange(a, b) };
            parse_command(to_line(c)) == Ok::<CommandView, u16>(c)
        }),
{
    let (a, b, n) = string_argument(s).unwrap();
    let verb = seq![86u8, 82u8, 70u8, 89u8];
    let v = s.subrange(a, b);
    let c = CommandView::VRFY { string: v };
    let t = line_with(verb, string_text(v));
    assert(to_line(c) == t);
    assert(crate::smtp::command::verb(t) == Some(Verb::Vrfy)) by {
        lemma_line_with(verb, string_text(v));
        lemma_verb(t, Verb::Vrfy);
    }
    lemma_string_argument_line(s, verb);
    let (ta, tb, tn) = string_argument(t).unwrap();
    assert(arguments(t, Verb::Vrfy) == Some((c, tn)));
    lemma_parses(t, Verb::Vrfy, c, tn);
}

/// The line of a parsed `EXPN` parses to the same command.
proof fn lemma_expn_line(s: Seq<u8>)
    requires
        string_argument(s) is Some,
    ensures
        ({
            let (a, b, n) = string_argument(s).unwrap();
            let c = CommandView::EXPN { string: s.subrange(a, b) };
            parse_command(to_line(c)) == Ok::<CommandView, u16>(c)
        }),
{
    let (a, b, n) = string_argument(s).unwrap();
    let verb = seq![69u8, 88u8, 80u8, 78u8];
    let v = s.subrange(a, b);
    let c = CommandView::EXPN { string: v };
    let t = line_with(verb, string_text(v));
    assert(to_line(c) == t);
    assert(crate::smtp::command::verb(t) == Some(Verb::Expn)) by {
        lemma_line_with(verb, string_text(v));
        lemma_verb(t, Verb::Expn);
    }
    lemma_string_argument_line(s, verb);
    let (ta, tb, tn) = string_argument(t).unwrap();
    assert(arguments(t, Verb::Expn) == Some((c, tn)));
    lemma_parses(t, Verb::Expn, c, tn);
}

/// What an optional string argument is read as.
pub open spec fn reads_optional_string(t: Seq<u8>, v: Seq<u8>) -> bool {
    t.subrange(optional_string_argument(t).0, optional_string_argument(t).1) == v && line_ends(
        t,
        optional_string_argument(t).2,
    )
}

/// The line with a parsed optional string reads as that string.
proof fn lemma_optional_string_line(s: Seq<u8>, verb: Seq<u8>)
    requires
        verb.len() == 4,
        s.len() >= 4,
    ensures
        ({
            let (a, b, n) = optional_string_argument(s);
            reads_optional_string(line_with_optional(verb, s.subrange(a, b)), s.subrange(a, b))
        }),
{
    let (a, b, n) = optional_string_argument(s);
    let v = s.subrange(a, b);
    let t = line_with_optional(verb, v);
    if string_argument(s) is Some {
        lemma_string_line(s, verb);
    }
    if v.len() == 0 {
        assert(crlf().len() == 2);
        assert(t.len() == 6);
        assert(t[4] == 13);
        assert(string_argument(t) is None);
        lemma_line_ends(t, 4);
        assert(t.subrange(4, 4) =~= v);
    } else {
        lemma_line_with(verb, string_text(v));
    }
}

/// The first four bytes of a line with an optional string are its verb.
proof fn lemma_optional_verb(verb: Seq<u8>, v: Seq<u8>)
    requires
        verb.len() == 4,
    ensures
        line_with_optional(verb, v).len() >= 4,
        forall|q: int| 0 <= q < 4 ==> line_with_optional(verb, v)[q] == verb[q],
{
    if v.len() == 0 {
        assert(crlf().len() == 2);
    } else {
        lemma_line_with(verb, string_text(v));
    }
}

/// The line of a parsed `HELP` parses to the same command.
proof fn lemma_help_line(s: Seq<u8>)
    requires
        s.len() >= 4,
    ensures
        ({
            let (a, b, n) = optional_string_argument(s);
            let c = CommandView::HELP { string: s.subrange(a, b) };
            parse_command(to_line(c)) == Ok::<CommandView, u16>(c)
        }),
{
    let (a, b, n) = optional_string_argument(s);
    let verb = seq![72u8, 69u8, 76u8, 80u8];
    let v = s.subrange(a, b);
    let c = CommandView::HELP { string: v };
    let t = line_with_optional(verb, v);
    assert(to_line(c) == t);
    assert(crate::smtp::command::verb(t) == Some(Verb::Help)) by {
        lemma_optional_verb(verb, v);
        lemma_verb(t, Verb::Help);
    }
    lemma_optional_string_line(s, verb);
    let (ta, tb, tn) = optional_string_argument(t);
    assert(arguments(t, Verb::Help) == Some((c, tn)));
    lemma_parses(t, Verb::Help, c, tn);
}

/// The line of a parsed `NOOP` parses to the same command.
proof fn lemma_noop_line(s: Seq<u8>)
    requires
        s.len() >= 4,
    ensures
        ({
            let (a, b, n) = optional_string_argument(s);
            let c = CommandView::NOOP { string: s.subrange(a, b) };
            parse_command(to_line(c)) == Ok::<CommandView, u16>(c)
        }),
{
    let (a, b, n) = optional_string_argument(s);
    let verb = seq![78u8, 79u8, 79u8, 80u8];
    let v = s.subrange(a, b);
    let c = CommandView::NOOP { string: v };
    let t = line_with_optional(verb, v);
    assert(to_line(c) == t);
    assert(crate::smtp::command::verb(t) == Some(Verb::Noop)) by {
        lemma_optional_verb(verb, v);
        lemma_verb(t, Verb::Noop);
    }
    lemma_optional_string_line(s, verb);
    let (ta, tb, tn) = optional_string_argument(t);
    assert(arguments(t, Verb::Noop) == Some((c, tn)));
    lemma_parses(t, Verb::Noop, c, tn);
}

/// The round trip: where a line parses to a command, the line of that
/// command parses to the same command.
pub proof fn lemma_round_trip(line: Seq<u8>)
    requires
        parse_command(line) is Ok,
    ensures
        parse_command(to_line(parse_command(line).unwrap())) == parse_command(line),
{
    match verb(line).unwrap() {
        Verb::Ehlo => {
            lemma_ehlo_line(line);
        },
        Verb::Helo => {
            lemma_helo_line(line);
        },
        Verb::Mail => {
            lemma_mail_line(line);
        },
        Verb::Rcpt => {
            lemma_rcpt_line(line);
        },
        Verb::Data => {
            lemma_bare_line(CommandView::DATA);
        },
        Verb::Rset => {
            lemma_bare_line(CommandView::RSET);
        },
        Verb::Vrfy => {
            lemma_vrfy_line(line);
        },
        Verb::Expn => {
            lemma_expn_line(line);
        },
        Verb::Help => {
            lemma_help_line(line);
        },
        Verb::Noop => {
            lemma_noop_line(line);
        },
        Verb::Quit => {
            lemma_bare_line(CommandView::QUIT);
        },
    }
}

} // verus!
