//! Mercury: the verified core of a mail-capture service.
//!
//! The crate holds the SMTP reply encoder, the SMTP command grammar, the
//! per-connection session state machine, the Internet Message Format header
//! parser with its typed decoders, and the decision logic of the ingest and
//! notification stages. Every function is verified against the contract
//! that stands in its header.

pub mod bytes;
pub mod header;
pub mod listen;
pub mod smtp;
pub mod storage;
