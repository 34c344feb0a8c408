//! What the ingest stage decides: which headers of a message are
//! indexed, and under which name its body is kept.
//!
//! The stage itself reads from a queue, writes a row and a file, and
//! publishes an event. Those steps are input and output; the rules that
//! they follow stand here.

use vstd::prelude::*;
use vstd::utf8::encode_utf8;
use crate::bytes::ascii_string;
use crate::header::known::{known_header, name_bytes, KNOWN_HEADER_COUNT};
use crate::header::map::{lookup, put_header, Entries, HeaderMap, InvalidHeaderMap};
use crate::header::parser::header_block;

verus! {

/// The number under which a message is stored. The storage gives the
/// numbers out, each greater than the one before.
#[derive(Clone, Copy, PartialEq, Eq, Debug)]
pub struct MailId {
    value: i64,
}

impl View for MailId {
    type V = int;

    closed spec fn view(&self) -> int {
        self.value as int
    }
}

impl MailId {
    /// The id with the given number.
    pub fn new(value: i64) -> (id: MailId)
        ensures
            id@ == value,
    {
        MailId { value }
    }

    /// The number of the id.
    pub fn value(self) -> (v: i64)
        ensures
            v == self@,
    {
        self.value
    }
}

/// The number of events that are kept for a subscriber that is slow. A
/// subscriber that falls behind by more misses events and is told so.
pub const EVENT_SLOTS: usize = 8;

/// The number of messages that a list holds where none is asked for.
pub const DEFAULT_LIST_SIZE: usize = 32;

/// What the storage tells its subscribers.
#[derive(Clone, Copy, PartialEq, Eq, Debug)]
pub enum StorageEvent {
    /// A message was stored under this id.
    NewMail(MailId),
}

/// The decimal digits of `n`, without leading zeros.
pub open spec fn decimal(n: nat) -> Seq<u8>
    decreases n,
{
    if n < 10 {
        seq![(48 + n) as u8]
    } else {
        decimal(n / 10).push((48 + n % 10) as u8)
    }
}

/// `v` in decimal, with a minus sign where it is negative.
pub open spec fn signed_decimal(v: int) -> Seq<u8> {
    if v < 0 {
        seq![45u8] + decimal((-v) as nat)
    } else {
        decimal(v as nat)
    }
}

/// The name of the file that holds the body of the message `id`: the
/// number in decimal and `.mail.gz`.
pub open spec fn file_name(id: int) -> Seq<u8> {
    signed_decimal(id) + seq![46u8, 109u8, 97u8, 105u8, 108u8, 46u8, 103u8, 122u8]
}

fn push_decimal(out: &mut Vec<u8>, n: u64)
    requires
        crate::bytes::is_ascii(old(out)@),
    ensures
        final(out)@ == old(out)@ + decimal(n as nat),
        crate::bytes::is_ascii(final(out)@),
    decreases n,
{
    if n >= 10 {
        push_decimal(out, n / 10);
    }
    let ghost before = out@;
    out.push(48 + (n % 10) as u8);
    proof {
        if n >= 10 {
            assert(out@ =~= old(out)@ + decimal((n / 10) as nat).push((48 + n % 10) as u8));
        } else {
            assert(out@ =~= old(out)@ + seq![(48 + n) as u8]);
        }
    }
}

/// The name of the file that holds the body of the message `id`.
pub fn mail_file_name(id: MailId) -> (name: String)
    ensures
        encode_utf8(name@) == file_name(id@),
{
    let v = id.value();
    let mut out: Vec<u8> = Vec::new();
    if v < 0 {
        out.push(45u8);
        let magnitude: u64 = ((-(v + 1)) as u64) + 1;
        push_decimal(&mut out, magnitude);
    } else {
        push_decimal(&mut out, v as u64);
    }
    let ghost number = out@;
    out.push(46u8);
    out.push(109u8);
    out.push(97u8);
    out.push(105u8);
    out.push(108u8);
    out.push(46u8);
    out.push(103u8);
    out.push(122u8);
    proof {
        assert(number =~= signed_decimal(v as int));
        assert(out@ =~= file_name(v as int));
        assert(out@.subrange(0, out@.len() as int) =~= out@);
    }
    ascii_string(out.as_slice(), 0, out.len())
}

/// The known headers with a number below `k` that `headers` holds, each
/// under its known name and with the value that `headers` has for it.
pub open spec fn indexed(headers: Entries, k: int) -> Entries
    decreases k,
{
    if k <= 0 {
        Seq::empty()
    } else {
        match lookup(headers, name_bytes(k - 1)) {
            Some(value) => put_header(indexed(headers, k - 1), name_bytes(k - 1), value),
            None => indexed(headers, k - 1),
        }
    }
}

/// The headers of `headers` that are indexed: the known ones.
pub fn known_headers_of(headers: &HeaderMap) -> (known: HeaderMap)
    ensures
        known.wf(),
        known@ == indexed(headers@, KNOWN_HEADER_COUNT as int),
{
    let mut known = HeaderMap::new();
    let mut k: usize = 0;
    proof {
        assert(known@ =~= Seq::empty());
    }
    while k < KNOWN_HEADER_COUNT
        invariant
            0 <= k <= KNOWN_HEADER_COUNT,
            known.wf(),
            known@ == indexed(headers@, k as int),
        decreases KNOWN_HEADER_COUNT - k,
    {
        let name = known_header(k);
        match headers.get(&name) {
            Some(value) => {
                known.insert(name, value.to_owned());
            },
            None => {},
        }
        k = k + 1;
    }
    known
}

/// What is indexed of a message with the bytes `data`: the known headers
/// of its header block. `None` where `data` starts with no header block.
pub open spec fn index_of(data: Seq<u8>) -> Option<Entries> {
    match header_block(data) {
        Some((n, entries)) => Some(indexed(entries, KNOWN_HEADER_COUNT as int)),
        None => None,
    }
}

/// Parses the header block of a message and picks the headers that are
/// indexed. A message without a header block is not stored.
pub fn index_mail(data: &[u8]) -> (r: Result<HeaderMap, InvalidHeaderMap>)
    ensures
        match r {
            Ok(known) => index_of(data@) == Some(known@) && known.wf(),
            Err(_) => index_of(data@) is None,
        },
{
    match HeaderMap::parse(data) {
        Ok((_, headers)) => Ok(known_headers_of(&headers)),
        Err(e) => Err(e),
    }
}

} // verus!
