//! The decoded headers of a message, as the list of messages shows them.

use vstd::prelude::*;
use vstd::utf8::encode_utf8;
use crate::header::known::name_bytes;
use crate::header::map::{lookup, Entries, HeaderMap};
use crate::header::typed::{decode_from, decode_sender, decode_to, From, Sender, Subject, To};

verus! {

/// The decoded `From`, `Sender`, `To` and `Subject` of a message; `None`
/// for each that the message does not have.
#[derive(Debug, PartialEq, Eq, Clone)]
pub struct MailSummary {
    pub from: Option<From>,
    pub sender: Option<Sender>,
    pub to: Option<To>,
    pub subject: Option<Subject>,
}

/// The header whose value does not decode.
#[derive(Clone, Copy, PartialEq, Eq, Debug)]
pub enum SummaryError {
    From,
    Sender,
    To,
}

impl SummaryError {
    /// What the error says.
    pub fn message(&self) -> (m: &'static str)
        ensures
            m@ == match self {
                SummaryError::From => "invalid from header"@,
                SummaryError::Sender => "invalid sender header"@,
                SummaryError::To => "invalid to header"@,
            },
    {
        match self {
            SummaryError::From => "invalid from header",
            SummaryError::Sender => "invalid sender header",
            SummaryError::To => "invalid to header",
        }
    }
}

/// Whether `headers` holds a `From` that does not decode.
pub open spec fn from_fails(headers: Entries) -> bool {
    match lookup(headers, name_bytes(9)) {
        Some(value) => decode_from(value) is None,
        None => false,
    }
}

/// Whether `headers` holds a `Sender` that does not decode.
pub open spec fn sender_fails(headers: Entries) -> bool {
    match lookup(headers, name_bytes(10)) {
        Some(value) => decode_sender(value) is None,
        None => false,
    }
}

/// Whether `headers` holds a `To` that does not decode.
pub open spec fn to_fails(headers: Entries) -> bool {
    match lookup(headers, name_bytes(12)) {
        Some(value) => decode_to(value) is None,
        None => false,
    }
}

/// Whether `summary` holds what the four headers of `headers` decode to.
pub open spec fn summarizes(headers: Entries, summary: MailSummary) -> bool {
    &&& match summary.from {
        Some(from) => match lookup(headers, name_bytes(9)) {
            Some(value) => decode_from(value) == Some(from@),
            None => false,
        },
        None => lookup(headers, name_bytes(9)) is None,
    }
    &&& match summary.sender {
        Some(sender) => match lookup(headers, name_bytes(10)) {
            Some(value) => decode_sender(value) == Some(sender@),
            None => false,
        },
        None => lookup(headers, name_bytes(10)) is None,
    }
    &&& match summary.to {
        Some(to) => match lookup(headers, name_bytes(12)) {
            Some(value) => decode_to(value) == Some(to@),
            None => false,
        },
        None => lookup(headers, name_bytes(12)) is None,
    }
    &&& match summary.subject {
        Some(subject) => lookup(headers, name_bytes(18)) == Some(encode_utf8(subject@)),
        None => lookup(headers, name_bytes(18)) is None,
    }
}

/// Decodes the headers that the list of messages shows. The first of
/// `From`, `Sender` and `To` that is there and does not decode is the
/// error.
pub fn summarize(headers: &HeaderMap) -> (r: Result<MailSummary, SummaryError>)
    ensures
        match r {
            Ok(summary) => summarizes(headers@, summary) && !from_fails(headers@) && !sender_fails(
                headers@,
            ) && !to_fails(headers@),
            Err(SummaryError::From) => from_fails(headers@),
            Err(SummaryError::Sender) => !from_fails(headers@) && sender_fails(headers@),
            Err(SummaryError::To) => !from_fails(headers@) && !sender_fails(headers@) && to_fails(
                headers@,
            ),
        },
{
    let from = match headers.get_typed::<From>() {
        Ok(from) => from,
        Err(_) => { return Err(SummaryError::From); },
    };
    let sender = match headers.get_typed::<Sender>() {
        Ok(sender) => sender,
        Err(_) => { return Err(SummaryError::Sender); },
    };
    let to = match headers.get_typed::<To>() {
        Ok(to) => to,
        Err(_) => { return Err(SummaryError::To); },
    };
    let subject = match headers.get_typed::<Subject>() {
        Ok(subject) => subject,
        Err(_) => None,
    };
    Ok(MailSummary { from, sender, to, subject })
}

} // verus!
