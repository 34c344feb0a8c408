//! The headers that are decoded into values: `From`, `Sender`, `To` and
//! `Subject`.
//!
//! A decoder reads the whole value of a header. After what its grammar
//! matches, only spaces and tabs may follow.

use vstd::prelude::*;
use vstd::utf8::encode_utf8;
use vstd::string::StringSliceAdditionalSpecFns;
use crate::bytes::{is_ascii, scan, span, Class};
use crate::header::address::{
    address_list, mailbox, mailbox_list, match_address_list, match_mailbox, match_mailbox_list,
};
use crate::header::known::{from_name, sender_name, subject_name, to_name, name_bytes};
use crate::header::map::{lookup, HeaderMap};
use crate::header::name::HeaderName;
use crate::header::parts::{
    addresses_view, mailboxes_view, Address, AddressView, Mailbox, MailboxView,
};

verus! {

/// Whether only spaces and tabs stand in `s` from `e` on.
pub open spec fn ends_at(s: Seq<u8>, e: int) -> bool {
    span(s, e, Class::Wsp) == s.len()
}

/// What the value of a `From` header decodes to: a `mailbox-list`.
pub open spec fn decode_from(s: Seq<u8>) -> Option<Seq<MailboxView>> {
    if !is_ascii(s) {
        None
    } else {
        match mailbox_list(s, 0) {
            Some((e, list)) => if ends_at(s, e) {
                Some(list)
            } else {
                None
            },
            None => None,
        }
    }
}

/// What the value of a `Sender` header decodes to: a `mailbox`.
pub open spec fn decode_sender(s: Seq<u8>) -> Option<MailboxView> {
    if !is_ascii(s) {
        None
    } else {
        match mailbox(s, 0) {
            Some((e, m)) => if ends_at(s, e) {
                Some(m)
            } else {
                None
            },
            None => None,
        }
    }
}

/// What the value of a `To` header decodes to: an `address-list`.
pub open spec fn decode_to(s: Seq<u8>) -> Option<Seq<AddressView>> {
    if !is_ascii(s) {
        None
    } else {
        match address_list(s, 0) {
            Some((e, list)) => if ends_at(s, e) {
                Some(list)
            } else {
                None
            },
            None => None,
        }
    }
}

/// Whether every byte of `s` is ASCII.
fn all_ascii(s: &[u8]) -> (r: bool)
    ensures
        r == is_ascii(s@),
{
    let mut i: usize = 0;
    while i < s.len()
        invariant
            0 <= i <= s.len(),
            forall|k: int| 0 <= k < i ==> #[trigger] s@[k] < 128,
        decreases s.len() - i,
    {
        if s[i] >= 128 {
            return false;
        }
        i = i + 1;
    }
    true
}

/// Whether only spaces and tabs stand in `s` from `e` on.
fn has_end(s: &[u8], e: usize) -> (r: bool)
    requires
        e <= s.len(),
    ensures
        r == ends_at(s@, e as int),
{
    scan(s, e, Class::Wsp) == s.len()
}

/// A header whose value decodes into a value of this type.
pub trait TypedHeader: Sized {
    /// What is returned for a value that does not decode.
    type Error;

    /// The bytes of the header's name.
    spec fn header_name() -> Seq<u8>;

    /// Whether `r` is what the value `value` decodes to.
    spec fn decodes_to(value: Seq<u8>, r: Result<Self, Self::Error>) -> bool;

    /// The name of the header.
    fn name() -> (n: HeaderName)
        ensures
            n@ == Self::header_name(),
    ;

    /// Decodes the value of the header.
    fn decode(encoded: &str) -> (r: Result<Self, Self::Error>)
        ensures
            Self::decodes_to(encoded.spec_bytes(), r),
    ;
}

/// The `From` header: the mailboxes of the authors.
#[derive(Debug, PartialEq, Eq, Clone)]
pub struct From {
    mailboxes: Vec<Mailbox>,
}

/// The error of [`From::decode`].
#[derive(Clone, Copy, PartialEq, Eq, Debug)]
pub struct InvalidFrom {}

impl InvalidFrom {
    fn new() -> InvalidFrom {
        InvalidFrom {  }
    }

    /// What the error says.
    pub fn message(&self) -> (m: &'static str)
        ensures
            m@ == "invalid from header"@,
    {
        "invalid from header"
    }
}

impl View for From {
    type V = Seq<MailboxView>;

    closed spec fn view(&self) -> Seq<MailboxView> {
        mailboxes_view(self.mailboxes@)
    }
}

impl From {
    /// The mailboxes of the header.
    pub fn mailboxes(&self) -> (m: &Vec<Mailbox>)
        ensures
            mailboxes_view(m@) == self@,
    {
        &self.mailboxes
    }
}

impl TypedHeader for From {
    type Error = InvalidFrom;

    open spec fn header_name() -> Seq<u8> {
        name_bytes(9)
    }

    open spec fn decodes_to(value: Seq<u8>, r: Result<From, InvalidFrom>) -> bool {
        match r {
            Ok(from) => decode_from(value) == Some(from@),
            Err(_) => decode_from(value) is None,
        }
    }

    fn name() -> (n: HeaderName) {
        from_name()
    }

    /// Decodes a `mailbox-list`. Fails exactly where the value is none.
    fn decode(encoded: &str) -> (r: Result<From, InvalidFrom>) {
        let s = encoded.as_bytes();
        if !all_ascii(s) {
            return Err(InvalidFrom::new());
        }
        match match_mailbox_list(s, 0) {
            Some((e, list)) => if has_end(s, e) {
                Ok(From { mailboxes: list })
            } else {
                Err(InvalidFrom::new())
            },
            None => Err(InvalidFrom::new()),
        }
    }
}

/// The `Sender` header: the mailbox of the one who sent the message.
#[derive(Debug, PartialEq, Eq, Clone)]
pub struct Sender {
    mailbox: Mailbox,
}

/// The error of [`Sender::decode`].
#[derive(Clone, Copy, PartialEq, Eq, Debug)]
pub struct InvalidSender {}

impl InvalidSender {
    fn new() -> InvalidSender {
        InvalidSender {  }
    }

    /// What the error says.
    pub fn message(&self) -> (m: &'static str)
        ensures
            m@ == "invalid sender header"@,
    {
        "invalid sender header"
    }
}

impl View for Sender {
    type V = MailboxView;

    closed spec fn view(&self) -> MailboxView {
        self.mailbox@
    }
}

impl Sender {
    /// The mailbox of the header.
    pub fn mailbox(&self) -> (m: &Mailbox)
        ensures
            m@ == self@,
    {
        &self.mailbox
    }
}

impl TypedHeader for Sender {
    type Error = InvalidSender;

    open spec fn header_name() -> Seq<u8> {
        name_bytes(10)
    }

    open spec fn decodes_to(value: Seq<u8>, r: Result<Sender, InvalidSender>) -> bool {
        match r {
            Ok(sender) => decode_sender(value) == Some(sender@),
            Err(_) => decode_sender(value) is None,
        }
    }

    fn name() -> (n: HeaderName) {
        sender_name()
    }

    /// Decodes a `mailbox`. Fails exactly where the value is none.
    fn decode(encoded: &str) -> (r: Result<Sender, InvalidSender>) {
        let s = encoded.as_bytes();
        if !all_ascii(s) {
            return Err(InvalidSender::new());
        }
        match match_mailbox(s, 0) {
            Some((e, mailbox)) => if has_end(s, e) {
                Ok(Sender { mailbox })
            } else {
                Err(InvalidSender::new())
            },
            None => Err(InvalidSender::new()),
        }
    }
}

/// The `To` header: the addresses of the recipients.
#[derive(Debug, PartialEq, Eq, Clone)]
pub struct To {
    addresses: Vec<Address>,
}

/// The error of [`To::decode`].
#[derive(Clone, Copy, PartialEq, Eq, Debug)]
pub struct InvalidTo {}

impl InvalidTo {
    fn new() -> InvalidTo {
        InvalidTo {  }
    }

    /// What the error says.
    pub fn message(&self) -> (m: &'static str)
        ensures
            m@ == "invalid to header"@,
    {
        "invalid to header"
    }
}

impl View for To {
    type V = Seq<AddressView>;

    closed spec fn view(&self) -> Seq<AddressView> {
        addresses_view(self.addresses@)
    }
}

impl To {
    /// The addresses of the header.
    pub fn addresses(&self) -> (a: &Vec<Address>)
        ensures
            addresses_view(a@) == self@,
    {
        &self.addresses
    }
}

impl TypedHeader for To {
    type Error = InvalidTo;

    open spec fn header_name() -> Seq<u8> {
        name_bytes(12)
    }

    open spec fn decodes_to(value: Seq<u8>, r: Result<To, InvalidTo>) -> bool {
        match r {
            Ok(to) => decode_to(value) == Some(to@),
            Err(_) => decode_to(value) is None,
        }
    }

    fn name() -> (n: HeaderName) {
        to_name()
    }

    /// Decodes an `address-list`. Fails exactly where the value is none.
    fn decode(encoded: &str) -> (r: Result<To, InvalidTo>) {
        let s = encoded.as_bytes();
        if !all_ascii(s) {
            return Err(InvalidTo::new());
        }
        match match_address_list(s, 0) {
            Some((e, list)) => if has_end(s, e) {
                Ok(To { addresses: list })
            } else {
                Err(InvalidTo::new())
            },
            None => Err(InvalidTo::new()),
        }
    }
}

/// The `Subject` header: the value as it is stored.
#[derive(Debug, PartialEq, Eq, Clone)]
pub struct Subject {
    text: String,
}

/// The error of [`Subject::decode`], which never occurs.
#[derive(Clone, Copy, PartialEq, Eq, Debug)]
pub struct InvalidSubject {}

impl InvalidSubject {
    /// What the error says.
    pub fn message(&self) -> (m: &'static str)
        ensures
            m@ == "invalid from header"@,
    {
        "invalid from header"
    }
}

impl View for Subject {
    type V = Seq<char>;

    closed spec fn view(&self) -> Seq<char> {
        self.text@
    }
}

impl Subject {
    /// The subject.
    pub fn as_str(&self) -> (s: &str)
        ensures
            s@ == self@,
    {
        self.text.as_str()
    }
}

impl TypedHeader for Subject {
    type Error = InvalidSubject;

    open spec fn header_name() -> Seq<u8> {
        name_bytes(18)
    }

    open spec fn decodes_to(value: Seq<u8>, r: Result<Subject, InvalidSubject>) -> bool {
        match r {
            Ok(subject) => encode_utf8(subject@) == value,
            Err(_) => false,
        }
    }

    fn name() -> (n: HeaderName) {
        subject_name()
    }

    /// The value itself: a stored value is unfolded already.
    fn decode(encoded: &str) -> (r: Result<Subject, InvalidSubject>) {
        Ok(Subject { text: encoded.to_owned() })
    }
}

impl HeaderMap {
    /// The header of type `T`, decoded: `Ok(None)` where the map holds no
    /// such header, and otherwise what `T` decodes its value to.
    pub fn get_typed<T: TypedHeader>(&self) -> (r: Result<Option<T>, T::Error>)
        ensures
            match lookup(self@, T::header_name()) {
                None => r matches Ok(None),
                Some(value) => match r {
                    Ok(Some(t)) => T::decodes_to(value, Ok(t)),
                    Ok(None) => false,
                    Err(e) => T::decodes_to(value, Err(e)),
                },
            },
    {
        let name = T::name();
        match self.get(&name) {
            Some(value) => match T::decode(value) {
                Ok(t) => Ok(Some(t)),
                Err(e) => Err(e),
            },
            None => Ok(None),
        }
    }
}

} // verus!
