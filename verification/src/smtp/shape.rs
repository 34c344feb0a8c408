//! What an atom and a domain are, said without the grammar: which texts
//! the rules `Atom` and `Domain` match as a whole.

use vstd::prelude::*;
use crate::bytes::{byte_at, is_alnum, lemma_span, span, Class};
use crate::smtp::context::{lemma_span_exact, lemma_strip_bounds};
use crate::smtp::grammar::{domain, domain_rest, strip_hyphens, subdomain};
use crate::smtp::serial::{is_atom, is_domain};

verus! {

/// Whether `d` has the shape of a domain: it is not empty; it holds
/// letters, digits, hyphens and dots only; and a letter or digit stands at
/// both of its ends and on both sides of every dot.
pub open spec fn domain_shape(d: Seq<u8>) -> bool {
    &&& d.len() > 0
    &&& forall|k: int| 0 <= k < d.len() ==> Class::Ldh.has(#[trigger] d[k]) || d[k] == 46
    &&& is_alnum(d[0])
    &&& is_alnum(d[d.len() - 1])
    &&& forall|k: int|
        0 <= k < d.len() && #[trigger] d[k] == 46 ==> 0 < k < d.len() - 1 && is_alnum(d[k - 1])
            && is_alnum(d[k + 1])
}

/// Whether the part of `d` from `i` up to `e` has the shape of a domain.
spec fn shaped(d: Seq<u8>, i: int, e: int) -> bool {
    &&& 0 <= i < e <= d.len()
    &&& forall|k: int| i <= k < e ==> Class::Ldh.has(#[trigger] d[k]) || d[k] == 46
    &&& is_alnum(d[i])
    &&& is_alnum(d[e - 1])
    &&& forall|k: int|
        i <= k < e && #[trigger] d[k] == 46 ==> i < k < e - 1 && is_alnum(d[k - 1]) && is_alnum(
            d[k + 1],
        )
}

/// A sub-domain is a run of letters, digits and hyphens with a letter or
/// digit at both ends.
proof fn lemma_subdomain_shape(d: Seq<u8>, i: int)
    requires
        0 <= i,
    ensures
        subdomain(d, i) matches Some(e) ==> i < e <= d.len() && is_alnum(d[i]) && is_alnum(
            d[e - 1],
        ) && forall|k: int| i <= k < e ==> Class::Ldh.has(#[trigger] d[k]),
{
    if i < d.len() && is_alnum(d[i]) {
        lemma_span(d, i, Class::Ldh);
        lemma_span(d, i + 1, Class::Ldh);
        lemma_strip_bounds(d, i, span(d, i, Class::Ldh));
    }
}

/// What follows a domain that has the shape up to `i` gives a domain
/// that has the shape up to its end.
proof fn lemma_domain_rest_shape(d: Seq<u8>, start: int, i: int)
    requires
        shaped(d, start, i),
    ensures
        shaped(d, start, domain_rest(d, i)),
    decreases d.len() - i,
{
    if byte_at(d, i, 46) {
        lemma_subdomain_shape(d, i + 1);
        match subdomain(d, i + 1) {
            Some(e) => {
                assert(shaped(d, start, e));
                lemma_domain_rest_shape(d, start, e);
            },
            None => {},
        }
    }
}

/// A text of the shape from `i` to its end, where a label starts at `i`,
/// is matched to its end.
proof fn lemma_shape_matches(d: Seq<u8>, start: int, i: int)
    requires
        shaped(d, start, d.len() as int),
        start <= i < d.len(),
        i == start || d[i - 1] == 46,
    ensures
        subdomain(d, i) matches Some(e) && i < e <= d.len() && domain_rest(d, e) == d.len(),
    decreases d.len() - i,
{
    if i > start {
        assert(d[i - 1] == 46);
    }
    assert(is_alnum(d[i]));
    lemma_span(d, i, Class::Ldh);
    lemma_span(d, i + 1, Class::Ldh);
    let run = span(d, i, Class::Ldh);
    lemma_strip_bounds(d, i, run);
    // the run ends at a dot or at the end, and a letter or digit stands
    // before either
    if run < d.len() {
        assert(Class::Ldh.has(d[run]) || d[run] == 46);
        assert(d[run] == 46);
        assert(is_alnum(d[run - 1]));
    } else {
        assert(is_alnum(d[d.len() - 1]));
    }
    assert(strip_hyphens(d, i, run) == run);
    assert(subdomain(d, i) == Some(run));
    if run < d.len() {
        assert(run + 1 < d.len());
        lemma_shape_matches(d, start, run + 1);
        assert(domain_rest(d, run) == domain_rest(d, subdomain(d, run + 1).unwrap()));
    }
}

/// A text is a domain as a whole exactly if it has the shape of a
/// domain.
pub proof fn lemma_domain_shape(d: Seq<u8>)
    ensures
        is_domain(d) <==> domain_shape(d),
{
    if is_domain(d) {
        lemma_subdomain_shape(d, 0);
        let e = subdomain(d, 0).unwrap();
        assert(shaped(d, 0, e));
        lemma_domain_rest_shape(d, 0, e);
        assert(shaped(d, 0, d.len() as int));
    }
    if domain_shape(d) {
        assert(shaped(d, 0, d.len() as int));
        lemma_shape_matches(d, 0, 0);
    }
}

/// Whether `v` has the shape of an atom: it is not empty and holds
/// `atext` only.
pub open spec fn atom_shape(v: Seq<u8>) -> bool {
    v.len() > 0 && forall|k: int| 0 <= k < v.len() ==> Class::Atext.has(#[trigger] v[k])
}

/// A text is an atom as a whole exactly if it has the shape of an atom.
pub proof fn lemma_atom_shape(v: Seq<u8>)
    ensures
        is_atom(v) <==> atom_shape(v),
{
    lemma_span(v, 0, Class::Atext);
    if atom_shape(v) {
        lemma_span_exact(v, 0, v.len() as int, Class::Atext);
    }
}

} // verus!
