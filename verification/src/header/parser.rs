//! The parser of a header block (RFC 5322, section 2.2 and 3.6.8).
//!
//! ```text
//! headers        = *optional-field CRLF
//! optional-field = field-name *WSP ":" unstructured CRLF
//! field-name     = 1*ftext
//! ```
//!
//! The value of a field runs up to the first CR LF that no space or tab
//! follows. Any ASCII byte may stand in it, so the obsolete forms with
//! control characters and stray CR or LF are read as well. The value is
//! stored unfolded: every run of spaces, tabs, CR and LF becomes one
//! space, and white space at both ends is cut.

use vstd::prelude::*;
use vstd::slice::{slice_subrange, slice_to_vec};
use crate::bytes::{
    ascii_string, byte_at, has_byte, is_ascii, is_ascii_space, is_wsp, scan, scan_back, span,
    span_back, Class, lemma_span,
};
use crate::header::map::{
    lemma_name_index, put_header, Entries, HeaderMap,
    InvalidHeaderMap,
};
use crate::header::name::HeaderName;

verus! {

/// Whether `ch` is `ftext`: a printable ASCII byte other than the colon.
pub fn is_ftext(ch: u8) -> (r: bool)
    ensures
        r == Class::Ftext.has(ch),
{
    Class::Ftext.contains(ch)
}

/// Whether a CR LF that ends a field stands at `i`: one that no space or
/// tab follows.
pub open spec fn ends_field(s: Seq<u8>, i: int) -> bool {
    byte_at(s, i, 13) && byte_at(s, i + 1, 10) && !(i + 2 < s.len() && is_wsp(s[i + 2]))
}

/// The end of a field's value that starts at `i`: the first position from
/// `i` on where the field ends. `None` where a byte above 127 comes
/// first, or where the field does not end.
pub open spec fn value_end(s: Seq<u8>, i: int) -> Option<int>
    decreases s.len() - i,
{
    if i < 0 || i >= s.len() || s[i] >= 128 {
        None
    } else if ends_field(s, i) {
        Some(i)
    } else {
        value_end(s, i + 1)
    }
}

/// `field-name = 1*ftext`: the end of the name that starts at `i`.
pub open spec fn field_name(s: Seq<u8>, i: int) -> Option<int> {
    let n = span(s, i, Class::Ftext);
    if n > i {
        Some(n)
    } else {
        None
    }
}

/// `optional-field = field-name *WSP ":" unstructured CRLF`, as the end
/// of the name, the start of the value and the end of the value. The
/// next field starts two bytes after the value.
pub open spec fn optional_field(s: Seq<u8>, i: int) -> Option<(int, int, int)> {
    match field_name(s, i) {
        Some(n) => {
            let w = span(s, n, Class::Wsp);
            if byte_at(s, w, 58) {
                match value_end(s, w + 1) {
                    Some(e) => Some((n, w + 1, e)),
                    None => None,
                }
            } else {
                None
            }
        },
        None => None,
    }
}

/// The bytes of `raw` from `i` on, added to `acc`, with every run of
/// spaces, tabs, CR and LF as one space. `pending` says that such a run
/// was read and its space not yet written; a run at the end is dropped.
pub open spec fn collapse(raw: Seq<u8>, i: int, pending: bool, acc: Seq<u8>) -> Seq<u8>
    decreases raw.len() - i,
{
    if i < 0 || i >= raw.len() {
        acc
    } else if Class::Fold.has(raw[i]) {
        collapse(raw, i + 1, true, acc)
    } else if pending {
        collapse(raw, i + 1, false, acc.push(32u8).push(raw[i]))
    } else {
        collapse(raw, i + 1, false, acc.push(raw[i]))
    }
}

/// `s` without the ASCII white space at its two ends.
pub open spec fn trimmed(s: Seq<u8>) -> Seq<u8> {
    let a = span(s, 0, Class::Space);
    let b = span_back(s, a, s.len() as int, Class::Space);
    s.subrange(a, b)
}

/// The value that is stored for the raw bytes of a field's value.
pub open spec fn unfolded(raw: Seq<u8>) -> Seq<u8> {
    trimmed(collapse(raw, 0, false, Seq::empty()))
}

/// Whether `v` holds neither CR nor LF, and neither starts nor ends with
/// ASCII white space.
pub open spec fn is_normal(v: Seq<u8>) -> bool {
    &&& forall|k: int| 0 <= k < v.len() ==> #[trigger] v[k] != 13 && v[k] != 10
    &&& v.len() > 0 ==> !is_ascii_space(v[0]) && !is_ascii_space(v[v.len() - 1])
}

/// Whether `v` holds neither CR nor LF.
pub open spec fn no_breaks(v: Seq<u8>) -> bool {
    forall|k: int| 0 <= k < v.len() ==> #[trigger] v[k] != 13 && v[k] != 10
}

proof fn lemma_collapse(raw: Seq<u8>, i: int, pending: bool, acc: Seq<u8>)
    requires
        no_breaks(acc),
        0 <= i,
    ensures
        no_breaks(collapse(raw, i, pending, acc)),
        is_ascii(raw) && is_ascii(acc) ==> is_ascii(collapse(raw, i, pending, acc)),
    decreases raw.len() - i,
{
    if i >= raw.len() {
    } else if Class::Fold.has(raw[i]) {
        lemma_collapse(raw, i + 1, true, acc);
    } else if pending {
        lemma_collapse(raw, i + 1, false, acc.push(32u8).push(raw[i]));
    } else {
        lemma_collapse(raw, i + 1, false, acc.push(raw[i]));
    }
}

proof fn lemma_span_back(s: Seq<u8>, i: int, e: int, c: Class)
    requires
        0 <= i <= e <= s.len(),
    ensures
        i <= span_back(s, i, e, c) <= e,
        span_back(s, i, e, c) > i ==> !c.has(s[span_back(s, i, e, c) - 1]),
    decreases e - i,
{
    if i < e && c.has(s[e - 1]) {
        lemma_span_back(s, i, e - 1, c);
    }
}

/// Every stored value is free of CR and LF, so that no CR LF remains in
/// it, and has no ASCII white space at either end.
pub proof fn lemma_unfolded_is_normal(raw: Seq<u8>)
    ensures
        is_normal(unfolded(raw)),
        is_ascii(raw) ==> is_ascii(unfolded(raw)),
{
    let c = collapse(raw, 0, false, Seq::empty());
    lemma_collapse(raw, 0, false, Seq::empty());
    lemma_span(c, 0, Class::Space);
    let a = span(c, 0, Class::Space);
    lemma_span_back(c, a, c.len() as int, Class::Space);
    let b = span_back(c, a, c.len() as int, Class::Space);
    let v = c.subrange(a, b);
    assert forall|k: int| 0 <= k < v.len() implies #[trigger] v[k] != 13 && v[k] != 10 by {
        assert(v[k] == c[a + k]);
    }
    if v.len() > 0 {
        assert(v[0] == c[a]);
        assert(v[v.len() - 1] == c[b - 1]);
    }
    if is_ascii(raw) {
        assert forall|k: int| 0 <= k < v.len() implies #[trigger] v[k] < 128 by {
            assert(v[k] == c[a + k]);
        }
    }
}

/// Whether every value of `es` is normal.
pub open spec fn values_normal(es: Entries) -> bool {
    forall|i: int| 0 <= i < es.len() ==> is_normal(#[trigger] es[i].1)
}

proof fn lemma_put_header_keeps_values(es: Entries, name: Seq<u8>, value: Seq<u8>)
    requires
        values_normal(es),
        is_normal(value),
    ensures
        values_normal(put_header(es, name, value)),
{
    lemma_name_index(es, name, 0);
    let after = put_header(es, name, value);
    assert forall|i: int| 0 <= i < after.len() implies is_normal(#[trigger] after[i].1) by {
        if i < es.len() && after[i].1 != value {
            assert(after[i].1 == es[i].1);
        }
    }
}

/// The fields that stand at `i`, one after the other, put into `acc`.
/// Gives the position after the last of them and the entries.
pub open spec fn fields(s: Seq<u8>, i: int, acc: Entries) -> (int, Entries)
    decreases s.len() - i,
{
    match optional_field(s, i) {
        Some((n, v, e)) => if 0 <= i < e && e + 2 <= s.len() {
            fields(s, e + 2, put_header(acc, s.subrange(i, n), unfolded(s.subrange(v, e))))
        } else {
            (i, acc)
        },
        None => (i, acc),
    }
}

/// `headers = *optional-field CRLF`: the position after the empty line
/// that ends the block, and the entries of the block. `None` where no
/// empty line follows the fields.
pub open spec fn header_block(s: Seq<u8>) -> Option<(int, Entries)> {
    let (i, entries) = fields(s, 0, Seq::empty());
    if byte_at(s, i, 13) && byte_at(s, i + 1, 10) {
        Some((i + 2, entries))
    } else {
        None
    }
}

/// The value that is stored for the raw bytes of a field's value:
/// unfolded, with single spaces between its words and no white space at
/// its ends.
pub fn unstructured(raw: &[u8]) -> (r: Vec<u8>)
    ensures
        r@ == unfolded(raw@),
        is_normal(r@),
        is_ascii(raw@) ==> is_ascii(r@),
{
    let mut acc: Vec<u8> = Vec::new();
    let mut pending = false;
    let mut i: usize = 0;
    while i < raw.len()
        invariant
            0 <= i <= raw.len(),
            collapse(raw@, 0, false, Seq::empty()) == collapse(raw@, i as int, pending, acc@),
        decreases raw.len() - i,
    {
        let b = raw[i];
        if Class::Fold.contains(b) {
            pending = true;
        } else {
            if pending {
                acc.push(32u8);
            }
            acc.push(b);
            pending = false;
        }
        i = i + 1;
    }
    let a = scan(acc.as_slice(), 0, Class::Space);
    let b = scan_back(acc.as_slice(), a, acc.len(), Class::Space);
    proof {
        lemma_unfolded_is_normal(raw@);
    }
    slice_to_vec(slice_subrange(acc.as_slice(), a, b))
}

/// The end of the field value that starts at `i`.
fn match_value_end(s: &[u8], i: usize) -> (r: Option<usize>)
    requires
        i <= s.len(),
    ensures
        crate::bytes::to_int(r) == value_end(s@, i as int),
        r matches Some(e) ==> i <= e && e + 2 <= s.len() && is_ascii(
            s@.subrange(i as int, e as int),
        ),
{
    let mut e: usize = i;
    while e < s.len() && s[e] < 128
        invariant
            i <= e <= s.len(),
            value_end(s@, i as int) == value_end(s@, e as int),
            forall|k: int| i <= k < e ==> #[trigger] s@[k] < 128,
        decreases s.len() - e,
    {
        if s[e] == 13 && has_byte(s, e + 1, 10) && !(e + 2 < s.len() && (s[e + 2] == 32 || s[e
            + 2] == 9)) {
            return Some(e);
        }
        e = e + 1;
    }
    None
}

/// `field-name = 1*ftext`
pub fn field_name_end(s: &[u8], i: usize) -> (r: Option<usize>)
    requires
        i <= s.len(),
    ensures
        crate::bytes::to_int(r) == field_name(s@, i as int),
        r matches Some(n) ==> i < n <= s.len() && is_ascii(s@.subrange(i as int, n as int)),
{
    let n = scan(s, i, Class::Ftext);
    if n > i {
        Some(n)
    } else {
        None
    }
}

/// `optional-field = field-name *WSP ":" unstructured CRLF`
pub fn match_optional_field(s: &[u8], i: usize) -> (r: Option<(usize, usize, usize)>)
    requires
        i <= s.len(),
    ensures
        match r {
            Some((n, v, e)) => optional_field(s@, i as int) == Some((n as int, v as int, e as int))
                && i < n < v <= e && e + 2 <= s.len() && is_ascii(s@.subrange(i as int, n as int))
                && is_ascii(s@.subrange(v as int, e as int)),
            None => optional_field(s@, i as int) is None,
        },
{
    match field_name_end(s, i) {
        Some(n) => {
            let w = scan(s, n, Class::Wsp);
            if has_byte(s, w, 58) {
                match match_value_end(s, w + 1) {
                    Some(e) => Some((n, w + 1, e)),
                    None => None,
                }
            } else {
                None
            }
        },
        None => None,
    }
}

/// Parses a header block: the fields and the empty line after them.
/// Gives what follows the block, and the map of the fields.
pub fn headers(s: &[u8]) -> (r: Result<(&[u8], HeaderMap), InvalidHeaderMap>)
    ensures
        match r {
            Ok((rest, map)) => header_block(s@) == Some((s@.len() - rest@.len(), map@)) && rest@
                == s@.subrange(s@.len() - rest@.len(), s@.len() as int) && map.wf()
                && values_normal(map@),
            Err(_) => header_block(s@) is None,
        },
{
    let mut map = HeaderMap::new();
    let mut i: usize = 0;
    proof {
        assert(map@ =~= Seq::empty());
    }
    loop
        invariant
            0 <= i <= s.len(),
            map.wf(),
            values_normal(map@),
            fields(s@, 0, Seq::empty()) == fields(s@, i as int, map@),
        ensures
            0 <= i <= s.len(),
            map.wf(),
            values_normal(map@),
            fields(s@, 0, Seq::empty()) == (i as int, map@),
        decreases s.len() - i,
    {
        match match_optional_field(s, i) {
            Some((n, v, e)) => {
                let name = match HeaderName::from_bytes(slice_subrange(s, i, n)) {
                    Ok(name) => name,
                    Err(_) => { break ; },
                };
                let value = unstructured(slice_subrange(s, v, e));
                let text = ascii_string(value.as_slice(), 0, value.len());
                proof {
                    assert(value@.subrange(0, value@.len() as int) =~= value@);
                    lemma_put_header_keeps_values(map@, name@, value@);
                }
                map.insert(name, text);
                i = e + 2;
            },
            None => {
                break ;
            },
        }
    }
    if has_byte(s, i, 13) && has_byte(s, i + 1, 10) {
        Ok((slice_subrange(s, i + 2, s.len()), map))
    } else {
        Err(InvalidHeaderMap {  })
    }
}

impl HeaderMap {
    /// Parses the header block that `bytes` starts with, the empty line
    /// included. Gives the bytes after the block, and the map.
    ///
    /// The map is what [`header_block`] names. Its names are ASCII and
    /// distinct without regard to case, and every value is free of CR and
    /// LF and of white space at its ends.
    pub fn parse(bytes: &[u8]) -> (r: Result<(&[u8], HeaderMap), InvalidHeaderMap>)
        ensures
            match r {
                Ok((rest, map)) => header_block(bytes@) == Some(
                    (bytes@.len() - rest@.len(), map@),
                ) && rest@ == bytes@.subrange(bytes@.len() - rest@.len(), bytes@.len() as int)
                    && map.wf() && values_normal(map@),
                Err(_) => header_block(bytes@) is None,
            },
    {
        headers(bytes)
    }
}

} // verus!
