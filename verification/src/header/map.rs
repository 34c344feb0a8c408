//! The header map: header names with their values.
//!
//! A map holds one value for each name, where names that differ only in
//! the case of their letters are the same name. A name stays spelled as it
//! was when it first came; a later value under the same name takes the
//! place of the earlier one.

use vstd::prelude::*;
use vstd::utf8::encode_utf8;
use vstd::string::StringSliceAdditionalSpecFns;
use crate::bytes::is_ascii;
use crate::header::name::{same_bytes, same_name, HeaderName};

verus! {

/// The entries of a map: each name with the bytes of its value.
pub type Entries = Seq<(Seq<u8>, Seq<u8>)>;

/// The first position at or after `from` that holds the name `name`,
/// without regard to case.
pub open spec fn name_index(es: Entries, name: Seq<u8>, from: int) -> Option<int>
    decreases es.len() - from,
{
    if from < 0 || from >= es.len() {
        None
    } else if same_name(es[from].0, name) {
        Some(from)
    } else {
        name_index(es, name, from + 1)
    }
}

/// `es` with `value` under `name`: in the place of the value that the
/// name had, or as a new entry at the end where it had none.
pub open spec fn put_header(es: Entries, name: Seq<u8>, value: Seq<u8>) -> Entries {
    match name_index(es, name, 0) {
        Some(n) => es.update(n, (es[n].0, value)),
        None => es.push((name, value)),
    }
}

/// The value that `es` holds under `name`.
pub open spec fn lookup(es: Entries, name: Seq<u8>) -> Option<Seq<u8>> {
    match name_index(es, name, 0) {
        Some(n) => Some(es[n].1),
        None => None,
    }
}

/// Whether every name of `es` is ASCII.
pub open spec fn ascii_names(es: Entries) -> bool {
    forall|i: int| 0 <= i < es.len() ==> is_ascii(#[trigger] es[i].0)
}

/// Whether no two names of `es` are equal but for the case of their
/// letters.
pub open spec fn distinct_names(es: Entries) -> bool {
    forall|i: int, j: int|
        0 <= i < j < es.len() ==> !same_name(#[trigger] es[i].0, #[trigger] es[j].0)
}

/// What `name_index` finds is the first entry of that name, and where it
/// finds nothing there is none.
pub proof fn lemma_name_index(es: Entries, name: Seq<u8>, from: int)
    requires
        0 <= from,
    ensures
        match name_index(es, name, from) {
            Some(n) => from <= n < es.len() && same_name(es[n].0, name) && forall|k: int|
                from <= k < n ==> !same_name(#[trigger] es[k].0, name),
            None => forall|k: int| from <= k < es.len() ==> !same_name(#[trigger] es[k].0, name),
        },
    decreases es.len() - from,
{
    if from < es.len() && !same_name(es[from].0, name) {
        lemma_name_index(es, name, from + 1);
    }
}

/// Putting a value under an ASCII name keeps the names ASCII and
/// distinct.
pub proof fn lemma_put_header_keeps_names(es: Entries, name: Seq<u8>, value: Seq<u8>)
    requires
        ascii_names(es),
        distinct_names(es),
        is_ascii(name),
    ensures
        ascii_names(put_header(es, name, value)),
        distinct_names(put_header(es, name, value)),
{
    lemma_name_index(es, name, 0);
    let after = put_header(es, name, value);
    match name_index(es, name, 0) {
        Some(n) => {
            assert forall|i: int| 0 <= i < after.len() implies after[i].0 == es[i].0 by {}
            assert forall|i: int, j: int| 0 <= i < j < after.len() implies !same_name(
                #[trigger] after[i].0,
                #[trigger] after[j].0,
            ) by {
                assert(after[i].0 == es[i].0 && after[j].0 == es[j].0);
            }
            assert forall|i: int| 0 <= i < after.len() implies is_ascii(
                #[trigger] after[i].0,
            ) by {
                assert(after[i].0 == es[i].0);
            }
        },
        None => {
            assert forall|i: int, j: int| 0 <= i < j < after.len() implies !same_name(
                #[trigger] after[i].0,
                #[trigger] after[j].0,
            ) by {
                if j < es.len() {
                    assert(after[i].0 == es[i].0 && after[j].0 == es[j].0);
                } else {
                    assert(after[i].0 == es[i].0);
                    assert(after[j].0 == name);
                }
            }
            assert forall|i: int| 0 <= i < after.len() implies is_ascii(
                #[trigger] after[i].0,
            ) by {
                if i < es.len() {
                    assert(after[i].0 == es[i].0);
                }
            }
        },
    }
}

/// Entries with the same names hold a name at the same place.
proof fn lemma_name_index_by_names(a: Entries, b: Entries, name: Seq<u8>, from: int)
    requires
        0 <= from,
        a.len() <= b.len(),
        forall|k: int| 0 <= k < a.len() ==> (#[trigger] a[k]).0 == b[k].0,
    ensures
        match name_index(a, name, from) {
            Some(n) => name_index(b, name, from) == Some(n),
            None => name_index(b, name, from) == name_index(b, name, vstd::math::max(
                from,
                a.len() as int,
            )),
        },
    decreases a.len() - from,
{
    if from < a.len() {
        assert(a[from].0 == b[from].0);
        if !same_name(a[from].0, name) {
            lemma_name_index_by_names(a, b, name, from + 1);
        }
    }
}

/// After a value was put under a name, that name, in whatever case,
/// gives the value; every other name gives what it gave before.
pub proof fn lemma_lookup_after_put(es: Entries, name: Seq<u8>, value: Seq<u8>, key: Seq<u8>)
    ensures
        lookup(put_header(es, name, value), key) == if same_name(name, key) {
            Some(value)
        } else {
            lookup(es, key)
        },
{
    let after = put_header(es, name, value);
    lemma_name_index(es, name, 0);
    lemma_name_index(es, key, 0);
    lemma_name_index(after, key, 0);
    match name_index(es, name, 0) {
        Some(n) => {
            assert forall|k: int| 0 <= k < es.len() implies (#[trigger] es[k]).0 == after[k].0 by {}
            lemma_name_index_by_names(es, after, key, 0);
            if same_name(name, key) {
                assert(same_name(es[n].0, key));
                let m = name_index(es, key, 0).unwrap();
                assert(m == n) by {
                    if m < n {
                        assert(same_name(es[m].0, name));
                    }
                }
            } else {
                match name_index(es, key, 0) {
                    Some(m) => {
                        assert(m != n);
                    },
                    None => {},
                }
            }
        },
        None => {
            assert forall|k: int| 0 <= k < es.len() implies (#[trigger] es[k]).0 == after[k].0 by {}
            lemma_name_index_by_names(es, after, key, 0);
            match name_index(es, key, 0) {
                Some(m) => {},
                None => {
                    assert(after[es.len() as int] == (name, value));
                    assert(name_index(after, key, es.len() as int + 1) is None);
                },
            }
            if same_name(name, key) {
                assert(name_index(es, key, 0) is None) by {
                    if name_index(es, key, 0) is Some {
                        let m = name_index(es, key, 0).unwrap();
                        assert(same_name(es[m].0, name));
                    }
                }
            }
        },
    }
}

/// The error of [`HeaderMap::parse`]: the bytes are no header block.
#[derive(Clone, Copy, PartialEq, Eq, Debug, Default)]
pub struct InvalidHeaderMap {}

/// Header names with their values.
#[derive(Debug)]
pub struct HeaderMap {
    entries: Vec<(HeaderName, String)>,
}

/// The names and the bytes of the values of a list of entries.
pub open spec fn entries_view(v: Seq<(HeaderName, String)>) -> Entries {
    Seq::new(v.len(), |i: int| (v[i].0@, encode_utf8(v[i].1@)))
}

impl View for HeaderMap {
    type V = Entries;

    closed spec fn view(&self) -> Entries {
        entries_view(self.entries@)
    }
}

impl HeaderMap {
    /// Every name is ASCII, and no two names differ only in the case of
    /// their letters.
    pub open spec fn wf(&self) -> bool {
        ascii_names(self@) && distinct_names(self@)
    }

    /// The map without entries.
    pub fn new() -> (m: HeaderMap)
        ensures
            m.wf(),
            m@.len() == 0,
    {
        HeaderMap { entries: Vec::new() }
    }

    /// The number of entries.
    pub fn len(&self) -> (n: usize)
        ensures
            n == self@.len(),
    {
        self.entries.len()
    }

    /// Puts `value` under `name`. Where the map holds the name already,
    /// in whatever case, the value takes the place of the earlier one and
    /// the name stays as it was spelled.
    pub fn insert(&mut self, name: HeaderName, value: String)
        requires
            old(self).wf(),
        ensures
            final(self).wf(),
            final(self)@ == put_header(old(self)@, name@, encode_utf8(value@)),
    {
        let ghost before = self@;
        let name_bytes = name.as_bytes();
        proof {
            assert(is_ascii(name@));
            lemma_put_header_keeps_names(before, name@, encode_utf8(value@));
        }
        let mut j: usize = 0;
        while j < self.entries.len()
            invariant
                0 <= j <= self.entries.len(),
                self.entries@ == old(self).entries@,
                before == entries_view(self.entries@),
                name_index(before, name@, 0) == name_index(before, name@, j as int),
                ascii_names(put_header(before, name@, encode_utf8(value@))),
                distinct_names(put_header(before, name@, encode_utf8(value@))),
            decreases self.entries.len() - j,
        {
            if self.entries[j].0.eq_ignore_case(&name) {
                let kept = self.entries[j].0.clone();
                self.entries.set(j, (kept, value));
                proof {
                    assert(entries_view(self.entries@) =~= before.update(
                        j as int,
                        (before[j as int].0, encode_utf8(value@)),
                    ));
                }
                return ;
            }
            j = j + 1;
        }
        let ghost new_name = name@;
        let ghost new_value = encode_utf8(value@);
        self.entries.push((name, value));
        proof {
            assert(entries_view(self.entries@) =~= before.push((new_name, new_value)));
        }
    }

    /// The value under `key`, whatever the case of its letters.
    pub fn get(&self, key: &HeaderName) -> (r: Option<&str>)
        ensures
            match r {
                Some(s) => lookup(self@, key@) == Some(s.spec_bytes()),
                None => lookup(self@, key@) is None,
            },
    {
        self.get_bytes(key.as_bytes())
    }

    /// The value under the name that the bytes `key` spell, whatever the
    /// case of its letters. The lookup builds no name.
    pub fn get_bytes(&self, key: &[u8]) -> (r: Option<&str>)
        ensures
            match r {
                Some(s) => lookup(self@, key@) == Some(s.spec_bytes()),
                None => lookup(self@, key@) is None,
            },
    {
        let mut j: usize = 0;
        while j < self.entries.len()
            invariant
                0 <= j <= self.entries.len(),
                name_index(self@, key@, 0) == name_index(self@, key@, j as int),
            decreases self.entries.len() - j,
        {
            if same_bytes(self.entries[j].0.as_bytes(), key) {
                return Some(self.entries[j].1.as_str());
            }
            j = j + 1;
        }
        None
    }

    /// The entries of the map, each name as it is spelled, in the order
    /// in which the names first came.
    pub fn iter(&self) -> (r: Vec<(HeaderName, String)>)
        ensures
            entries_view(r@) == self@,
    {
        let mut out: Vec<(HeaderName, String)> = Vec::new();
        let mut j: usize = 0;
        while j < self.entries.len()
            invariant
                0 <= j <= self.entries.len(),
                out@.len() == j,
                forall|k: int|
                    0 <= k < j ==> (#[trigger] out@[k]).0@ == self.entries@[k].0@ && out@[k].1@
                        == self.entries@[k].1@,
            decreases self.entries.len() - j,
        {
            let name = self.entries[j].0.clone();
            let value = self.entries[j].1.clone();
            out.push((name, value));
            j = j + 1;
        }
        proof {
            assert(entries_view(out@) =~= entries_view(self.entries@));
        }
        out
    }
}

impl Default for HeaderMap {
    fn default() -> (m: HeaderMap)
        ensures
            m.wf(),
            m@.len() == 0,
    {
        HeaderMap::new()
    }
}

} // verus!
