//! Header names: ASCII byte strings that are compared without regard to
//! the case of their letters.

use vstd::prelude::*;
use vstd::slice::slice_to_vec;
use vstd::string::StringSliceAdditionalSpecFns;
use crate::bytes::{ascii_str, fold, is_ascii, to_lower};

verus! {

/// `s` with every upper-case ASCII letter in its lower-case form.
pub open spec fn folded(s: Seq<u8>) -> Seq<u8> {
    Seq::new(s.len(), |i: int| fold(s[i]))
}

/// Whether `a` and `b` are equal but for the case of their letters.
pub open spec fn same_name(a: Seq<u8>, b: Seq<u8>) -> bool {
    folded(a) == folded(b)
}

/// How one name stands to another.
#[derive(Clone, Copy, PartialEq, Eq, Debug)]
pub enum Order {
    Less,
    Equal,
    Greater,
}

/// The place of `a` against `b` in the order of the dictionary, taken
/// over the lower-case forms of the bytes from position `i` on.
pub open spec fn order_from(a: Seq<u8>, b: Seq<u8>, i: int) -> Order
    decreases a.len() - i,
{
    if i < 0 || i >= a.len() {
        if i < b.len() {
            Order::Less
        } else {
            Order::Equal
        }
    } else if i >= b.len() {
        Order::Greater
    } else if fold(a[i]) < fold(b[i]) {
        Order::Less
    } else if fold(a[i]) > fold(b[i]) {
        Order::Greater
    } else {
        order_from(a, b, i + 1)
    }
}

/// Two names stand equal in the order exactly if they are the same name.
pub proof fn lemma_order_equal(a: Seq<u8>, b: Seq<u8>)
    ensures
        (order_from(a, b, 0) == Order::Equal) <==> same_name(a, b),
{
    lemma_order_equal_from(a, b, 0);
    if same_name(a, b) {
        assert(folded(a).len() == folded(b).len());
        assert forall|k: int| 0 <= k < a.len() implies fold(a[k]) == fold(b[k]) by {
            assert(folded(a)[k] == folded(b)[k]);
        }
    } else {
        if a.len() == b.len() && (forall|k: int| 0 <= k < a.len() ==> fold(a[k]) == fold(b[k])) {
            assert(folded(a) =~= folded(b));
        }
    }
}

proof fn lemma_order_equal_from(a: Seq<u8>, b: Seq<u8>, i: int)
    requires
        0 <= i,
    ensures
        (order_from(a, b, i) == Order::Equal) <==> (a.len() <= i && b.len() <= i) || (a.len()
            == b.len() && forall|k: int| i <= k < a.len() ==> fold(a[k]) == fold(b[k])),
    decreases a.len() - i,
{
    if i < a.len() && i < b.len() && fold(a[i]) == fold(b[i]) {
        lemma_order_equal_from(a, b, i + 1);
    }
}

/// The name of a header field.
#[derive(Debug)]
pub struct HeaderName {
    bytes: Vec<u8>,
}

/// The error of the conversions into a [`HeaderName`]: a byte is not
/// ASCII.
#[derive(Clone, Copy, PartialEq, Eq, Debug)]
pub struct InvalidHeaderName {}

impl View for HeaderName {
    type V = Seq<u8>;

    closed spec fn view(&self) -> Seq<u8> {
        self.bytes@
    }
}

impl HeaderName {
    /// Every byte of a name is ASCII.
    #[verifier::type_invariant]
    pub closed spec fn wf(self) -> bool {
        is_ascii(self.bytes@)
    }

    /// The name that the ASCII string `s` spells.
    pub fn from_static(s: &'static str) -> (r: HeaderName)
        requires
            s.is_ascii(),
        ensures
            r@ == s.spec_bytes(),
    {
        proof {
            vstd::string::is_ascii_spec_bytes(s);
            vstd::utf8::is_ascii_chars_nat_bound(s@);
        }
        HeaderName { bytes: slice_to_vec(s.as_bytes()) }
    }

    /// The name that `value` spells, if `value` is ASCII.
    pub fn from_bytes(value: &[u8]) -> (r: Result<HeaderName, InvalidHeaderName>)
        ensures
            match r {
                Ok(name) => is_ascii(value@) && name@ == value@,
                Err(_) => !is_ascii(value@),
            },
    {
        let mut i: usize = 0;
        while i < value.len()
            invariant
                0 <= i <= value.len(),
                forall|k: int| 0 <= k < i ==> #[trigger] value@[k] < 128,
            decreases value.len() - i,
        {
            if value[i] >= 128 {
                return Err(InvalidHeaderName {  });
            }
            i = i + 1;
        }
        Ok(HeaderName { bytes: slice_to_vec(value) })
    }

    /// The name that `value` spells, if `value` is ASCII.
    pub fn from_str(value: &str) -> (r: Result<HeaderName, InvalidHeaderName>)
        ensures
            match r {
                Ok(name) => is_ascii(value.spec_bytes()) && name@ == value.spec_bytes(),
                Err(_) => !is_ascii(value.spec_bytes()),
            },
    {
        HeaderName::from_bytes(value.as_bytes())
    }

    /// The same name, owning its bytes.
    pub fn into_owned(self) -> (r: HeaderName)
        ensures
            r@ == self@,
    {
        self
    }

    /// The bytes of the name.
    pub fn as_bytes(&self) -> (b: &[u8])
        ensures
            b@ == self@,
            is_ascii(b@),
    {
        proof {
            use_type_invariant(self);
        }
        self.bytes.as_slice()
    }

    /// The name as a string.
    pub fn as_str(&self) -> (s: &str)
        ensures
            s.spec_bytes() == self@,
    {
        proof {
            use_type_invariant(self);
        }
        ascii_str(self.bytes.as_slice())
    }

    /// Whether the two names are equal but for the case of their letters.
    pub fn eq_ignore_case(&self, other: &HeaderName) -> (r: bool)
        ensures
            r == same_name(self@, other@),
    {
        same_bytes(self.bytes.as_slice(), other.bytes.as_slice())
    }

    /// How this name stands to `other` in the order of the dictionary,
    /// without regard to the case of the letters.
    pub fn compare(&self, other: &HeaderName) -> (r: Order)
        ensures
            r == order_from(self@, other@, 0),
    {
        let a = self.bytes.as_slice();
        let b = other.bytes.as_slice();
        let mut i: usize = 0;
        while i < a.len() && i < b.len()
            invariant
                0 <= i <= a.len(),
                i <= b.len(),
                a@ == self@,
                b@ == other@,
                order_from(a@, b@, 0) == order_from(a@, b@, i as int),
            decreases a.len() - i,
        {
            let x = to_lower(a[i]);
            let y = to_lower(b[i]);
            if x < y {
                return Order::Less;
            }
            if x > y {
                return Order::Greater;
            }
            i = i + 1;
        }
        if i < b.len() {
            Order::Less
        } else if i < a.len() {
            Order::Greater
        } else {
            Order::Equal
        }
    }
}

/// Whether `a` and `b` are equal but for the case of their letters.
pub fn same_bytes(a: &[u8], b: &[u8]) -> (r: bool)
    ensures
        r == same_name(a@, b@),
{
    if a.len() != b.len() {
        proof {
            assert(folded(a@).len() != folded(b@).len());
        }
        return false;
    }
    let mut i: usize = 0;
    while i < a.len()
        invariant
            0 <= i <= a.len(),
            a.len() == b.len(),
            forall|k: int| 0 <= k < i ==> fold(#[trigger] a@[k]) == fold(b@[k]),
        decreases a.len() - i,
    {
        if to_lower(a[i]) != to_lower(b[i]) {
            proof {
                assert(folded(a@)[i as int] != folded(b@)[i as int]);
            }
            return false;
        }
        i = i + 1;
    }
    proof {
        assert(folded(a@) =~= folded(b@));
    }
    true
}

impl Clone for HeaderName {
    fn clone(&self) -> (r: HeaderName)
        ensures
            r@ == self@,
    {
        proof {
            use_type_invariant(self);
        }
        HeaderName { bytes: slice_to_vec(self.bytes.as_slice()) }
    }
}

impl PartialEq for HeaderName {
    fn eq(&self, other: &HeaderName) -> (r: bool) {
        self.eq_ignore_case(other)
    }
}

impl vstd::std_specs::cmp::PartialEqSpecImpl for HeaderName {
    open spec fn obeys_eq_spec() -> bool {
        true
    }

    open spec fn eq_spec(&self, other: &HeaderName) -> bool {
        same_name(self@, other@)
    }
}

impl Eq for HeaderName {

}

} // verus!
