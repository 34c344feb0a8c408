//! The SMTP receiver: replies, commands and the session state machine.

pub mod reply;
pub mod grammar;
pub mod command;
pub mod session;
pub mod context;
pub mod window;
pub mod serial;
pub mod roundtrip;
pub mod shape;
