//! The names of the headers that the service knows and indexes.

use vstd::prelude::*;
use vstd::utf8::encode_utf8;
use crate::header::name::HeaderName;

verus! {

/// The number of known headers.
pub const KNOWN_HEADER_COUNT: usize = 21;

/// The name of the known header with the number `i`, as text.
pub open spec fn name_text(i: int) -> Seq<char> {
    if i == 0 {
        "trace"@
    } else if i == 1 {
        "resent-date"@
    } else if i == 2 {
        "resent-from"@
    } else if i == 3 {
        "resent-sender"@
    } else if i == 4 {
        "resent-to"@
    } else if i == 5 {
        "resent-cc"@
    } else if i == 6 {
        "resent-bcc"@
    } else if i == 7 {
        "resent-msg-id"@
    } else if i == 8 {
        "orig-date"@
    } else if i == 9 {
        "from"@
    } else if i == 10 {
        "sender"@
    } else if i == 11 {
        "reply-to"@
    } else if i == 12 {
        "to"@
    } else if i == 13 {
        "cc"@
    } else if i == 14 {
        "bcc"@
    } else if i == 15 {
        "message-id"@
    } else if i == 16 {
        "in-reply-to"@
    } else if i == 17 {
        "references"@
    } else if i == 18 {
        "subject"@
    } else if i == 19 {
        "comments"@
    } else {
        "keywords"@
    }
}

/// The name of the known header with the number `i`, as bytes.
pub open spec fn name_bytes(i: int) -> Seq<u8> {
    encode_utf8(name_text(i))
}

/// The name of the known header with the number `i`.
pub fn known_header(i: usize) -> (n: HeaderName)
    requires
        i < KNOWN_HEADER_COUNT,
    ensures
        n@ == name_bytes(i as int),
{
    proof {
        reveal_strlit("trace");
        reveal_strlit("resent-date");
        reveal_strlit("resent-from");
        reveal_strlit("resent-sender");
        reveal_strlit("resent-to");
        reveal_strlit("resent-cc");
        reveal_strlit("resent-bcc");
        reveal_strlit("resent-msg-id");
        reveal_strlit("orig-date");
        reveal_strlit("from");
        reveal_strlit("sender");
        reveal_strlit("reply-to");
        reveal_strlit("to");
        reveal_strlit("cc");
        reveal_strlit("bcc");
        reveal_strlit("message-id");
        reveal_strlit("in-reply-to");
        reveal_strlit("references");
        reveal_strlit("subject");
        reveal_strlit("comments");
        reveal_strlit("keywords");
    }
    if i == 0 {
        HeaderName::from_static("trace")
    } else if i == 1 {
        HeaderName::from_static("resent-date")
    } else if i == 2 {
        HeaderName::from_static("resent-from")
    } else if i == 3 {
        HeaderName::from_static("resent-sender")
    } else if i == 4 {
        HeaderName::from_static("resent-to")
    } else if i == 5 {
        HeaderName::from_static("resent-cc")
    } else if i == 6 {
        HeaderName::from_static("resent-bcc")
    } else if i == 7 {
        HeaderName::from_static("resent-msg-id")
    } else if i == 8 {
        HeaderName::from_static("orig-date")
    } else if i == 9 {
        HeaderName::from_static("from")
    } else if i == 10 {
        HeaderName::from_static("sender")
    } else if i == 11 {
        HeaderName::from_static("reply-to")
    } else if i == 12 {
        HeaderName::from_static("to")
    } else if i == 13 {
        HeaderName::from_static("cc")
    } else if i == 14 {
        HeaderName::from_static("bcc")
    } else if i == 15 {
        HeaderName::from_static("message-id")
    } else if i == 16 {
        HeaderName::from_static("in-reply-to")
    } else if i == 17 {
        HeaderName::from_static("references")
    } else if i == 18 {
        HeaderName::from_static("subject")
    } else if i == 19 {
        HeaderName::from_static("comments")
    } else {
        HeaderName::from_static("keywords")
    }
}

/// The names of all known headers, in the order of their numbers.
pub fn known_headers() -> (names: Vec<HeaderName>)
    ensures
        names@.len() == KNOWN_HEADER_COUNT,
        forall|i: int| 0 <= i < names@.len() ==> (#[trigger] names@[i])@ == name_bytes(i),
{
    let mut names: Vec<HeaderName> = Vec::new();
    let mut i: usize = 0;
    while i < KNOWN_HEADER_COUNT
        invariant
            0 <= i <= KNOWN_HEADER_COUNT,
            names@.len() == i,
            forall|k: int| 0 <= k < i ==> (#[trigger] names@[k])@ == name_bytes(k),
        decreases KNOWN_HEADER_COUNT - i,
    {
        names.push(known_header(i));
        i = i + 1;
    }
    names
}

/// `from`
pub fn from_name() -> (n: HeaderName)
    ensures
        n@ == name_bytes(9),
{
    known_header(9)
}

/// `sender`
pub fn sender_name() -> (n: HeaderName)
    ensures
        n@ == name_bytes(10),
{
    known_header(10)
}

/// `to`
pub fn to_name() -> (n: HeaderName)
    ensures
        n@ == name_bytes(12),
{
    known_header(12)
}

/// `subject`
pub fn subject_name() -> (n: HeaderName)
    ensures
        n@ == name_bytes(18),
{
    known_header(18)
}

} // verus!
