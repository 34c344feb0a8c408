//! The parts that address headers are made of: mailboxes, groups and
//! addresses.

use vstd::prelude::*;
use vstd::utf8::encode_utf8;
use vstd::string::StringSliceAdditionalSpecFns;
use crate::bytes::{ascii_string, is_ascii, scan, scan_back, Class};
use crate::header::lexical::crlf_at;
use crate::header::parser::trimmed;

verus! {

/// The bytes of `s` from `i` on, added to `acc`, without the CR LF pairs
/// among them.
pub open spec fn without_crlf_from(s: Seq<u8>, i: int, acc: Seq<u8>) -> Seq<u8>
    decreases s.len() - i,
{
    if i < 0 || i >= s.len() {
        acc
    } else if crlf_at(s, i) {
        without_crlf_from(s, i + 2, acc)
    } else {
        without_crlf_from(s, i + 1, acc.push(s[i]))
    }
}

/// The text of a part as it is stored: without ASCII white space at its
/// ends, and then without CR LF pairs.
pub open spec fn cleaned(s: Seq<u8>) -> Seq<u8> {
    without_crlf_from(trimmed(s), 0, Seq::empty())
}

/// Cleans `raw` as [`cleaned`] says.
pub(crate) fn clean(raw: &[u8]) -> (r: String)
    requires
        is_ascii(raw@),
    ensures
        encode_utf8(r@) == cleaned(raw@),
{
    let a = scan(raw, 0, Class::Space);
    let b = scan_back(raw, a, raw.len(), Class::Space);
    let ghost t = raw@.subrange(a as int, b as int);
    let mut out: Vec<u8> = Vec::new();
    let mut i: usize = a;
    while i < b
        invariant
            a <= i <= b <= raw.len(),
            t == raw@.subrange(a as int, b as int),
            is_ascii(raw@),
            is_ascii(out@),
            without_crlf_from(t, 0, Seq::empty()) == without_crlf_from(t, i - a, out@),
        decreases b - i,
    {
        proof {
            assert(t[i - a] == raw@[i as int]);
            if i + 1 < b {
                assert(t[i - a + 1] == raw@[i + 1]);
            }
        }
        if raw[i] == 13 && i + 1 < b && raw[i + 1] == 10 {
            i = i + 2;
        } else {
            out.push(raw[i]);
            i = i + 1;
        }
    }
    proof {
        assert(out@.subrange(0, out@.len() as int) =~= out@);
    }
    ascii_string(out.as_slice(), 0, out.len())
}

/// A mailbox: a display name, which may be empty, and an address.
#[derive(Debug, PartialEq, Eq, Clone)]
pub struct Mailbox {
    display_name: String,
    address: String,
}

/// A mailbox as bytes.
pub struct MailboxView {
    pub display_name: Seq<u8>,
    pub address: Seq<u8>,
}

impl View for Mailbox {
    type V = MailboxView;

    closed spec fn view(&self) -> MailboxView {
        MailboxView {
            display_name: encode_utf8(self.display_name@),
            address: encode_utf8(self.address@),
        }
    }
}

/// The mailbox that is stored for a display name and an address as they
/// were read.
pub open spec fn mailbox_of(display_name: Seq<u8>, address: Seq<u8>) -> MailboxView {
    MailboxView { display_name: cleaned(display_name), address: cleaned(address) }
}

impl Mailbox {
    /// The mailbox of a display name and an address as they were read.
    /// Without a display name the name is empty.
    pub(crate) fn new_raw(display_name: Option<&[u8]>, address: &[u8]) -> (r: Mailbox)
        requires
            is_ascii(address@),
            display_name matches Some(d) ==> is_ascii(d@),
        ensures
            r@ == mailbox_of(
                match display_name {
                    Some(d) => d@,
                    None => Seq::empty(),
                },
                address@,
            ),
    {
        let empty: Vec<u8> = Vec::new();
        let name = match display_name {
            Some(d) => clean(d),
            None => {
                proof {
                    assert(empty@ =~= Seq::empty());
                }
                clean(empty.as_slice())
            },
        };
        Mailbox { display_name: name, address: clean(address) }
    }

    /// The display name; empty where the mailbox has none.
    pub fn display_name(&self) -> (s: &str)
        ensures
            s.spec_bytes() == self@.display_name,
    {
        self.display_name.as_str()
    }

    /// The address, `local-part@domain`, as it was written.
    pub fn address(&self) -> (s: &str)
        ensures
            s.spec_bytes() == self@.address,
    {
        self.address.as_str()
    }
}

/// The mailboxes of a list, as bytes.
pub open spec fn mailboxes_view(v: Seq<Mailbox>) -> Seq<MailboxView> {
    Seq::new(v.len(), |i: int| v[i]@)
}

/// A group: a display name and the mailboxes of its members.
#[derive(Debug, PartialEq, Eq, Clone)]
pub struct Group {
    display_name: String,
    mailboxes: Vec<Mailbox>,
}

/// A group as bytes.
pub struct GroupView {
    pub display_name: Seq<u8>,
    pub mailboxes: Seq<MailboxView>,
}

impl View for Group {
    type V = GroupView;

    closed spec fn view(&self) -> GroupView {
        GroupView {
            display_name: encode_utf8(self.display_name@),
            mailboxes: mailboxes_view(self.mailboxes@),
        }
    }
}

impl Group {
    /// The group of a display name as it was read and of its members.
    /// Without a display name the name is empty.
    pub(crate) fn new_raw(display_name: Option<&[u8]>, mailboxes: Vec<Mailbox>) -> (r: Group)
        requires
            display_name matches Some(d) ==> is_ascii(d@),
        ensures
            r@ == (GroupView {
                display_name: cleaned(
                    match display_name {
                        Some(d) => d@,
                        None => Seq::empty(),
                    },
                ),
                mailboxes: mailboxes_view(mailboxes@),
            }),
    {
        let empty: Vec<u8> = Vec::new();
        let name = match display_name {
            Some(d) => clean(d),
            None => {
                proof {
                    assert(empty@ =~= Seq::empty());
                }
                clean(empty.as_slice())
            },
        };
        Group { display_name: name, mailboxes }
    }

    /// The display name of the group.
    pub fn display_name(&self) -> (s: &str)
        ensures
            s.spec_bytes() == self@.display_name,
    {
        self.display_name.as_str()
    }

    /// The members of the group.
    pub fn mailboxes(&self) -> (m: &Vec<Mailbox>)
        ensures
            mailboxes_view(m@) == self@.mailboxes,
    {
        &self.mailboxes
    }
}

/// An address: one mailbox, or a group of them.
#[derive(Debug, PartialEq, Eq, Clone)]
pub enum Address {
    Mailbox(Mailbox),
    Group(Group),
}

/// An address as bytes.
pub enum AddressView {
    Mailbox(MailboxView),
    Group(GroupView),
}

impl View for Address {
    type V = AddressView;

    open spec fn view(&self) -> AddressView {
        match self {
            Address::Mailbox(m) => AddressView::Mailbox(m@),
            Address::Group(g) => AddressView::Group(g@),
        }
    }
}

/// The addresses of a list, as bytes.
pub open spec fn addresses_view(v: Seq<Address>) -> Seq<AddressView> {
    Seq::new(v.len(), |i: int| v[i]@)
}

} // verus!
