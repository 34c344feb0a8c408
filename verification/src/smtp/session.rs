//! The state machine of one SMTP connection.
//!
//! A session is opened, then reads command lines, and after `DATA` reads
//! the message up to the line that holds a single dot. The connection
//! fills the buffer that the session names and calls [`Session::on_recv`],
//! which answers with a reply code and, at the end of a message, with the
//! message itself. [`step`] is the whole transition table.

use vstd::prelude::*;
use vstd::utf8::encode_utf8;
use crate::bytes::{ends_with, slice_ends_with};
use crate::smtp::command::{parse_command, Command, CommandView};
use crate::smtp::reply::{Code, Reply};

verus! {

/// The seconds that a connection waits for input before it gives up,
/// unless it is configured otherwise.
pub const READ_TIMEOUT_SECONDS: u64 = 5;

/// The seconds that a connection waits for a reply to go out before it
/// gives up, unless it is configured otherwise.
pub const WRITE_TIMEOUT_SECONDS: u64 = 5;

/// What the session waits for.
#[derive(Clone, Copy, PartialEq, Eq, Debug, Default)]
pub enum Mode {
    /// Nothing was read yet; the greeting is due.
    #[default]
    Open,
    /// A command line, ended by CR LF.
    Line,
    /// The message, ended by CR LF `.` CR LF.
    Data,
}

/// A message as it was accepted: the envelope and the bytes after `DATA`.
#[derive(Debug, PartialEq, Eq, Clone)]
pub struct RawMail {
    pub reverse_path: String,
    pub forward_path: Vec<String>,
    pub data: Vec<u8>,
}

/// A message as bytes.
pub struct RawMailView {
    pub reverse_path: Seq<u8>,
    pub forward_path: Seq<Seq<u8>>,
    pub data: Seq<u8>,
}

/// The bytes of each string of `v`.
pub open spec fn paths_view(v: Seq<String>) -> Seq<Seq<u8>> {
    Seq::new(v.len(), |i: int| encode_utf8(v[i]@))
}

impl View for RawMail {
    type V = RawMailView;

    open spec fn view(&self) -> RawMailView {
        RawMailView {
            reverse_path: encode_utf8(self.reverse_path@),
            forward_path: paths_view(self.forward_path@),
            data: self.data@,
        }
    }
}

impl RawMail {
    /// The message with the given envelope and bytes.
    pub fn new(reverse_path: String, forward_path: Vec<String>, data: Vec<u8>) -> (r: Self)
        ensures
            r.reverse_path == reverse_path,
            r.forward_path == forward_path,
            r.data == data,
    {
        RawMail { reverse_path, forward_path, data }
    }
}

/// What ends a command line: CR LF.
pub open spec fn line_terminator() -> Seq<u8> {
    seq![13u8, 10u8]
}

/// What ends a message: CR LF `.` CR LF.
pub open spec fn data_terminator() -> Seq<u8> {
    seq![13u8, 10u8, 46u8, 13u8, 10u8]
}

/// CR LF, as bytes.
fn line_terminator_bytes() -> (t: &'static [u8])
    ensures
        t@ == line_terminator(),
{
    let s: &'static str = "\r\n";
    proof {
        reveal_strlit("\r\n");
        assert(vstd::utf8::is_ascii_chars(s@));
        vstd::utf8::is_ascii_chars_encode_utf8(s@);
        assert(encode_utf8(s@) =~= line_terminator());
    }
    s.as_bytes()
}

/// CR LF `.` CR LF, as bytes.
fn data_terminator_bytes() -> (t: &'static [u8])
    ensures
        t@ == data_terminator(),
{
    let s: &'static str = "\r\n.\r\n";
    proof {
        reveal_strlit("\r\n.\r\n");
        assert(vstd::utf8::is_ascii_chars(s@));
        vstd::utf8::is_ascii_chars_encode_utf8(s@);
        assert(encode_utf8(s@) =~= data_terminator());
    }
    s.as_bytes()
}

/// `data` without the message terminator at its end, if it stands there.
/// Dots that the client stuffed stay as they were sent.
pub open spec fn strip_terminator(data: Seq<u8>) -> Seq<u8> {
    if ends_with(data, data_terminator()) {
        data.subrange(0, data.len() - 5)
    } else {
        data
    }
}

/// A message that a session hands out does not end with the message
/// terminator, unless the buffer that it was cut from ended with two of
/// them in a row.
pub proof fn lemma_stripped_data_is_unterminated(data: Seq<u8>)
    requires
        !ends_with(data, data_terminator() + data_terminator()),
    ensures
        !ends_with(strip_terminator(data), data_terminator()),
{
    let t = data_terminator();
    if ends_with(data, t) {
        let cut = data.subrange(0, data.len() - 5);
        if ends_with(cut, t) {
            assert(data.subrange(data.len() - 10, data.len() as int) =~= t + t) by {
                assert forall|k: int| 0 <= k < 10 implies data.subrange(
                    data.len() - 10,
                    data.len() as int,
                )[k] == (t + t)[k] by {
                    if k < 5 {
                        assert(cut.subrange(cut.len() - 5, cut.len() as int)[k] == t[k]);
                    } else {
                        assert(data.subrange(data.len() - 5, data.len() as int)[k - 5] == t[k
                            - 5]);
                    }
                }
            }
            assert(false);
        }
    }
}

/// The state of a session as plain values.
pub struct SessionView {
    pub mode: Mode,
    pub line: Seq<u8>,
    pub data: Seq<u8>,
    pub reverse_path: Seq<u8>,
    pub forward_path: Seq<Seq<u8>>,
    pub closed: bool,
}

/// What one call of `on_recv` does: the state after it, the code of the
/// reply, and the message that it hands out.
pub struct Step {
    pub next: SessionView,
    pub code: u16,
    pub mail: Option<RawMailView>,
}

/// The state and the reply code after the command `c`, in a session that
/// waits for a line.
///
/// The order of the commands is not enforced: `RCPT` and `DATA` are
/// answered as well where no `MAIL` came before.
pub open spec fn on_command(v: SessionView, c: CommandView) -> Step {
    match c {
        CommandView::EHLO { domain } => Step { next: v, code: 250, mail: None },
        CommandView::HELO { domain } => Step { next: v, code: 250, mail: None },
        CommandView::MAIL { reverse_path, mail_parameters } => Step {
            next: SessionView {
                mode: v.mode,
                line: v.line,
                data: Seq::empty(),
                reverse_path: reverse_path,
                forward_path: Seq::empty(),
                closed: v.closed,
            },
            code: 250,
            mail: None,
        },
        CommandView::RCPT { forward_path, rcpt_parameters } => Step {
            next: SessionView {
                mode: v.mode,
                line: v.line,
                data: v.data,
                reverse_path: v.reverse_path,
                forward_path: v.forward_path.push(forward_path),
                closed: v.closed,
            },
            code: 250,
            mail: None,
        },
        CommandView::DATA => Step {
            next: SessionView {
                mode: Mode::Data,
                line: v.line,
                data: v.data,
                reverse_path: v.reverse_path,
                forward_path: v.forward_path,
                closed: v.closed,
            },
            code: 354,
            mail: None,
        },
        CommandView::RSET => Step {
            next: SessionView {
                mode: v.mode,
                line: v.line,
                data: Seq::empty(),
                reverse_path: Seq::empty(),
                forward_path: Seq::empty(),
                closed: v.closed,
            },
            code: 250,
            mail: None,
        },
        CommandView::NOOP { string } => Step { next: v, code: 250, mail: None },
        CommandView::QUIT => Step {
            next: SessionView {
                mode: v.mode,
                line: v.line,
                data: v.data,
                reverse_path: v.reverse_path,
                forward_path: v.forward_path,
                closed: true,
            },
            code: 221,
            mail: None,
        },
        CommandView::VRFY { string } => Step { next: v, code: 502, mail: None },
        CommandView::EXPN { string } => Step { next: v, code: 502, mail: None },
        CommandView::HELP { string } => Step { next: v, code: 502, mail: None },
    }
}

/// `v` with an empty line buffer.
pub open spec fn without_line(v: SessionView) -> SessionView {
    SessionView {
        mode: v.mode,
        line: Seq::empty(),
        data: v.data,
        reverse_path: v.reverse_path,
        forward_path: v.forward_path,
        closed: v.closed,
    }
}

/// The transition table of the session.
///
/// - `Open`: the greeting 220 is due, and the session waits for a line.
/// - `Line`: the line buffer is parsed as a command. A command acts as
///   [`on_command`] says; a line that does not parse is answered with the
///   code that the parser names. Either way the line buffer is emptied.
/// - `Data`: the data buffer, without the terminator at its end, goes out
///   as a message with the envelope gathered so far; the envelope and the
///   buffer are emptied, 250 is due, and the session waits for a line.
pub open spec fn step(v: SessionView) -> Step {
    match v.mode {
        Mode::Open => Step {
            next: SessionView {
                mode: Mode::Line,
                line: v.line,
                data: v.data,
                reverse_path: v.reverse_path,
                forward_path: v.forward_path,
                closed: v.closed,
            },
            code: 220,
            mail: None,
        },
        Mode::Line => match parse_command(v.line) {
            Ok(c) => {
                let s = on_command(v, c);
                Step { next: without_line(s.next), code: s.code, mail: s.mail }
            },
            Err(code) => Step { next: without_line(v), code: code, mail: None },
        },
        Mode::Data => Step {
            next: SessionView {
                mode: Mode::Line,
                line: v.line,
                data: Seq::empty(),
                reverse_path: Seq::empty(),
                forward_path: Seq::empty(),
                closed: v.closed,
            },
            code: 250,
            mail: Some(
                RawMailView {
                    reverse_path: v.reverse_path,
                    forward_path: v.forward_path,
                    data: strip_terminator(v.data),
                },
            ),
        },
    }
}

/// The message of an `Option`, as bytes.
pub open spec fn mail_view(m: Option<RawMail>) -> Option<RawMailView> {
    match m {
        Some(mail) => Some(mail@),
        None => None,
    }
}

/// One SMTP session: its mode, its two buffers and the envelope of the
/// message that is being received.
pub struct Session {
    mode: Mode,
    line_buffer: Vec<u8>,
    data_buffer: Vec<u8>,
    reverse_path: String,
    forward_path: Vec<String>,
    closed: bool,
}

impl View for Session {
    type V = SessionView;

    closed spec fn view(&self) -> SessionView {
        SessionView {
            mode: self.mode,
            line: self.line_buffer@,
            data: self.data_buffer@,
            reverse_path: encode_utf8(self.reverse_path@),
            forward_path: paths_view(self.forward_path@),
            closed: self.closed,
        }
    }
}

impl Session {
    /// A session on a connection that was just opened.
    pub fn new() -> (s: Session)
        ensures
            s@.mode == Mode::Open,
            s@.line.len() == 0,
            s@.data.len() == 0,
            s@.reverse_path.len() == 0,
            s@.forward_path.len() == 0,
            !s@.closed,
    {
        let s = Session {
            mode: Mode::Open,
            line_buffer: Vec::with_capacity(64),
            data_buffer: Vec::new(),
            reverse_path: String::new(),
            forward_path: Vec::with_capacity(1),
            closed: false,
        };
        proof {
            assert(encode_utf8(s.reverse_path@) =~= Seq::empty());
        }
        s
    }

    /// Acts on what was received: sets the code of `reply`, moves to the
    /// next state, and at the end of a message hands the message out.
    /// Everything is as [`step`] says of the state before the call.
    pub fn on_recv(&mut self, reply: &mut Reply) -> (mail: Option<RawMail>)
        requires
            old(reply).wf(),
        ensures
            final(self)@ == step(old(self)@).next,
            mail_view(mail) == step(old(self)@).mail,
            final(reply).wf(),
            final(reply).current_code() == Some(step(old(self)@).code),
            final(reply).lines() == old(reply).lines(),
            old(self)@.mode == Mode::Data && !ends_with(
                old(self)@.data,
                data_terminator() + data_terminator(),
            ) ==> mail is Some && !ends_with(mail.unwrap().data@, data_terminator()),
    {
        proof {
            if !ends_with(self@.data, data_terminator() + data_terminator()) {
                lemma_stripped_data_is_unterminated(self@.data);
            }
        }
        match self.mode {
            Mode::Open => {
                self.on_open(reply);
                None
            },
            Mode::Line => {
                self.on_line(reply);
                None
            },
            Mode::Data => Some(self.on_data(reply)),
        }
    }

    fn on_open(&mut self, reply: &mut Reply)
        requires
            old(reply).wf(),
            old(self).mode == Mode::Open,
        ensures
            final(self)@ == step(old(self)@).next,
            step(old(self)@).mail is None,
            final(reply).wf(),
            final(reply).current_code() == Some(step(old(self)@).code),
            final(reply).lines() == old(reply).lines(),
    {
        reply.code(Code::service_ready());
        self.mode = Mode::Line;
    }

    fn on_line(&mut self, reply: &mut Reply)
        requires
            old(reply).wf(),
            old(self).mode == Mode::Line,
        ensures
            final(self)@ == step(old(self)@).next,
            step(old(self)@).mail is None,
            final(reply).wf(),
            final(reply).current_code() == Some(step(old(self)@).code),
            final(reply).lines() == old(reply).lines(),
    {
        match Command::parse(self.line_buffer.as_slice()) {
            Ok(cmd) => {
                self.handle_command(reply, cmd);
            },
            Err(code) => {
                reply.code(code);
            },
        }
        self.line_buffer.clear();
    }

    fn on_data(&mut self, reply: &mut Reply) -> (mail: RawMail)
        requires
            old(reply).wf(),
            old(self).mode == Mode::Data,
        ensures
            final(self)@ == step(old(self)@).next,
            Some(mail@) == step(old(self)@).mail,
            final(reply).wf(),
            final(reply).current_code() == Some(step(old(self)@).code),
            final(reply).lines() == old(reply).lines(),
    {
        let mut reverse_path = String::new();
        let mut forward_path: Vec<String> = Vec::new();
        let mut data: Vec<u8> = Vec::new();
        std::mem::swap(&mut self.reverse_path, &mut reverse_path);
        std::mem::swap(&mut self.forward_path, &mut forward_path);
        std::mem::swap(&mut self.data_buffer, &mut data);
        let mut mail = RawMail::new(reverse_path, forward_path, data);
        if slice_ends_with(mail.data.as_slice(), data_terminator_bytes()) {
            let keep: usize = mail.data.len() - 5;
            mail.data.truncate(keep);
        }
        self.mode = Mode::Line;
        reply.code(Code::mail_action_okay());
        proof {
            assert(encode_utf8(self.reverse_path@) =~= Seq::empty());
            assert(paths_view(self.forward_path@) =~= Seq::empty());
        }
        mail
    }

    fn handle_command(&mut self, reply: &mut Reply, cmd: Command)
        requires
            old(reply).wf(),
        ensures
            final(self)@ == on_command(old(self)@, cmd@).next,
            on_command(old(self)@, cmd@).mail is None,
            final(reply).wf(),
            final(reply).current_code() == Some(on_command(old(self)@, cmd@).code),
            final(reply).lines() == old(reply).lines(),
    {
        match cmd {
            Command::EHLO { domain } => self.handle_ehlo(reply, domain),
            Command::HELO { domain } => self.handle_helo(reply, domain),
            Command::MAIL { reverse_path, mail_parameters } => self.handle_mail(
                reply,
                reverse_path,
                mail_parameters,
            ),
            Command::RCPT { forward_path, rcpt_parameters } => self.handle_rcpt(
                reply,
                forward_path,
                rcpt_parameters,
            ),
            Command::DATA => self.handle_data(reply),
            Command::RSET => self.handle_rset(reply),
            Command::NOOP { string } => self.handle_noop(reply, string),
            Command::QUIT => self.handle_quit(reply),
            _ => reply.code(Code::command_not_implemented()),
        }
    }

    fn handle_ehlo(&mut self, reply: &mut Reply, domain: String)
        requires
            old(reply).wf(),
        ensures
            *final(self) == *old(self),
            final(reply).wf(),
            final(reply).current_code() == Some(250u16),
            final(reply).lines() == old(reply).lines(),
    {
        reply.code(Code::mail_action_okay());
    }

    fn handle_helo(&mut self, reply: &mut Reply, domain: String)
        requires
            old(reply).wf(),
        ensures
            *final(self) == *old(self),
            final(reply).wf(),
            final(reply).current_code() == Some(250u16),
            final(reply).lines() == old(reply).lines(),
    {
        reply.code(Code::mail_action_okay());
    }

    fn handle_mail(&mut self, reply: &mut Reply, path: String, params: Vec<(String, String)>)
        requires
            old(reply).wf(),
        ensures
            final(self)@ == (SessionView {
                mode: old(self)@.mode,
                line: old(self)@.line,
                data: Seq::empty(),
                reverse_path: encode_utf8(path@),
                forward_path: Seq::empty(),
                closed: old(self)@.closed,
            }),
            final(reply).wf(),
            final(reply).current_code() == Some(250u16),
            final(reply).lines() == old(reply).lines(),
    {
        self.forward_path.clear();
        self.data_buffer.clear();
        self.reverse_path = path;
        reply.code(Code::mail_action_okay());
        proof {
            assert(paths_view(self.forward_path@) =~= Seq::empty());
        }
    }

    fn handle_rcpt(&mut self, reply: &mut Reply, path: String, params: Vec<(String, String)>)
        requires
            old(reply).wf(),
        ensures
            final(self)@ == (SessionView {
                mode: old(self)@.mode,
                line: old(self)@.line,
                data: old(self)@.data,
                reverse_path: old(self)@.reverse_path,
                forward_path: old(self)@.forward_path.push(encode_utf8(path@)),
                closed: old(self)@.closed,
            }),
            final(reply).wf(),
            final(reply).current_code() == Some(250u16),
            final(reply).lines() == old(reply).lines(),
    {
        let ghost before = paths_view(self.forward_path@);
        let ghost bytes = encode_utf8(path@);
        self.forward_path.push(path);
        reply.code(Code::mail_action_okay());
        proof {
            assert(paths_view(self.forward_path@) =~= before.push(bytes));
        }
    }

    fn handle_data(&mut self, reply: &mut Reply)
        requires
            old(reply).wf(),
        ensures
            final(self)@ == (SessionView {
                mode: Mode::Data,
                line: old(self)@.line,
                data: old(self)@.data,
                reverse_path: old(self)@.reverse_path,
                forward_path: old(self)@.forward_path,
                closed: old(self)@.closed,
            }),
            final(reply).wf(),
            final(reply).current_code() == Some(354u16),
            final(reply).lines() == old(reply).lines(),
    {
        self.mode = Mode::Data;
        reply.code(Code::start_mail_input());
    }

    fn handle_rset(&mut self, reply: &mut Reply)
        requires
            old(reply).wf(),
        ensures
            final(self)@ == (SessionView {
                mode: old(self)@.mode,
                line: old(self)@.line,
                data: Seq::empty(),
                reverse_path: Seq::empty(),
                forward_path: Seq::empty(),
                closed: old(self)@.closed,
            }),
            final(reply).wf(),
            final(reply).current_code() == Some(250u16),
            final(reply).lines() == old(reply).lines(),
    {
        self.reverse_path = String::new();
        self.forward_path.clear();
        self.data_buffer.clear();
        reply.code(Code::mail_action_okay());
        proof {
            assert(encode_utf8(self.reverse_path@) =~= Seq::empty());
            assert(paths_view(self.forward_path@) =~= Seq::empty());
        }
    }

    fn handle_noop(&mut self, reply: &mut Reply, string: String)
        requires
            old(reply).wf(),
        ensures
            *final(self) == *old(self),
            final(reply).wf(),
            final(reply).current_code() == Some(250u16),
            final(reply).lines() == old(reply).lines(),
    {
        reply.code(Code::mail_action_okay());
    }

    fn handle_quit(&mut self, reply: &mut Reply)
        requires
            old(reply).wf(),
        ensures
            final(self)@ == (SessionView {
                mode: old(self)@.mode,
                line: old(self)@.line,
                data: old(self)@.data,
                reverse_path: old(self)@.reverse_path,
                forward_path: old(self)@.forward_path,
                closed: true,
            }),
            final(reply).wf(),
            final(reply).current_code() == Some(221u16),
            final(reply).lines() == old(reply).lines(),
    {
        self.closed = true;
        reply.code(Code::service_closing());
    }

    /// What ends the input that the session waits for: CR LF for a line,
    /// CR LF `.` CR LF for a message.
    pub fn terminator(&self) -> (t: &'static [u8])
        requires
            self@.mode != Mode::Open,
        ensures
            self@.mode == Mode::Line ==> t@ == line_terminator(),
            self@.mode == Mode::Data ==> t@ == data_terminator(),
    {
        match self.mode {
            Mode::Data => data_terminator_bytes(),
            _ => line_terminator_bytes(),
        }
    }

    /// The buffer that the connection appends to: the line buffer while a
    /// line is awaited, the data buffer while a message is.
    pub fn buffer_mut(&mut self) -> (buffer: &mut Vec<u8>)
        requires
            old(self)@.mode != Mode::Open,
        ensures
            old(self)@.mode == Mode::Line ==> buffer@ == old(self)@.line && final(self)@ == (
            SessionView {
                mode: old(self)@.mode,
                line: final(buffer)@,
                data: old(self)@.data,
                reverse_path: old(self)@.reverse_path,
                forward_path: old(self)@.forward_path,
                closed: old(self)@.closed,
            }),
            old(self)@.mode == Mode::Data ==> buffer@ == old(self)@.data && final(self)@ == (
            SessionView {
                mode: old(self)@.mode,
                line: old(self)@.line,
                data: final(buffer)@,
                reverse_path: old(self)@.reverse_path,
                forward_path: old(self)@.forward_path,
                closed: old(self)@.closed,
            }),
    {
        match self.mode {
            Mode::Data => &mut self.data_buffer,
            _ => &mut self.line_buffer,
        }
    }

    /// Whether the input that the session waits for is complete: whether
    /// the buffer of its mode ends with the terminator of its mode.
    pub fn received(&self) -> (b: bool)
        requires
            self@.mode != Mode::Open,
        ensures
            self@.mode == Mode::Line ==> b == ends_with(self@.line, line_terminator()),
            self@.mode == Mode::Data ==> b == ends_with(self@.data, data_terminator()),
    {
        let t = self.terminator();
        match self.mode {
            Mode::Data => slice_ends_with(self.data_buffer.as_slice(), t),
            _ => slice_ends_with(self.line_buffer.as_slice(), t),
        }
    }

    /// Whether the session has answered `QUIT`.
    pub fn closed(&self) -> (b: bool)
        ensures
            b == self@.closed,
    {
        self.closed
    }

    /// What the session waits for.
    pub fn mode(&self) -> (m: Mode)
        ensures
            m == self@.mode,
    {
        self.mode
    }
}

} // verus!
