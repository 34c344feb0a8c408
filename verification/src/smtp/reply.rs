//! SMTP reply codes and the buffer that frames a reply on the wire.
//!
//! A reply is a code and a list of text lines. On the wire every line but
//! the last reads `NNN-text\r\n`, and the last reads `NNN text\r\n`.

use vstd::prelude::*;

verus! {

/// A three-digit SMTP reply code.
#[derive(Clone, Copy, PartialEq, Eq, Debug)]
pub struct Code {
    value: u16,
}

/// The error of [`Code::new`]: the number has not three digits.
#[derive(Clone, Copy, PartialEq, Eq, Debug)]
pub struct InvalidCode {}

/// The text that a reply carries when none was given for `code`.
/// `None` stands for the empty text.
pub open spec fn default_text(code: u16) -> Option<Seq<char>> {
    if code == 220 {
        Some("service ready"@)
    } else if code == 221 {
        Some("closing"@)
    } else if code == 250 {
        Some("ok"@)
    } else if code == 251 {
        Some("user not local; will forward"@)
    } else if code == 252 {
        Some("cannot VRFY user, will attempt delivery"@)
    } else if code == 354 {
        Some("start mail input"@)
    } else if code == 421 {
        Some("service not available, closing transmission channel"@)
    } else if code == 450 {
        Some("mail action not taken: mailbox unavailable"@)
    } else if code == 451 {
        Some("action aborted: local error in processing"@)
    } else if code == 452 {
        Some("action not taken: insufficient system storage"@)
    } else if code == 455 {
        Some("server unable to accomodate parameters"@)
    } else if code == 500 {
        Some("syntax error, command unrecognized"@)
    } else if code == 501 {
        Some("syntax error in parameters or arguments"@)
    } else if code == 502 {
        Some("not implemented"@)
    } else if code == 503 {
        Some("bad sequence of commands"@)
    } else if code == 504 {
        Some("command parameter not implemented"@)
    } else if code == 550 {
        Some("action not taken: mailbox unavailable"@)
    } else if code == 551 {
        Some("user not local"@)
    } else if code == 552 {
        Some("mail action aborted: exceeded storage allocation"@)
    } else if code == 553 {
        Some("action not taken: mailbox name not allowed"@)
    } else if code == 554 {
        Some("transaction failed"@)
    } else if code == 555 {
        Some("MAIL FROM/RCPT TO parameters not recognized or not implemented"@)
    } else {
        None
    }
}

impl Code {
    /// Every code has exactly three decimal digits.
    #[verifier::type_invariant]
    pub closed spec fn wf(self) -> bool {
        100 <= self.value <= 999
    }

    /// The number of the code.
    pub closed spec fn number(self) -> u16 {
        self.value
    }

    /// The code with the given number, if it has three digits.
    pub fn new(value: u16) -> (r: Result<Code, InvalidCode>)
        ensures
            match r {
                Ok(c) => 100 <= value <= 999 && c.number() == value,
                Err(_) => !(100 <= value <= 999),
            },
    {
        if 100 <= value && value <= 999 {
            Ok(Code { value })
        } else {
            Err(InvalidCode {  })
        }
    }

    /// The number of the code, always between 100 and 999.
    pub fn value(self) -> (v: u16)
        ensures
            v == self.number(),
            100 <= v <= 999,
    {
        proof {
            use_type_invariant(&self);
        }
        self.value
    }

    /// The default text of the code, `None` where it has none.
    pub fn text(&self) -> (r: Option<&'static str>)
        ensures
            match r {
                Some(s) => default_text(self.number()) == Some(s@),
                None => default_text(self.number()) is None,
            },
    {
        let v: u16 = self.value;
        if v == 220 {
            Some("service ready")
        } else if v == 221 {
            Some("closing")
        } else if v == 250 {
            Some("ok")
        } else if v == 251 {
            Some("user not local; will forward")
        } else if v == 252 {
            Some("cannot VRFY user, will attempt delivery")
        } else if v == 354 {
            Some("start mail input")
        } else if v == 421 {
            Some("service not available, closing transmission channel")
        } else if v == 450 {
            Some("mail action not taken: mailbox unavailable")
        } else if v == 451 {
            Some("action aborted: local error in processing")
        } else if v == 452 {
            Some("action not taken: insufficient system storage")
        } else if v == 455 {
            Some("server unable to accomodate parameters")
        } else if v == 500 {
            Some("syntax error, command unrecognized")
        } else if v == 501 {
            Some("syntax error in parameters or arguments")
        } else if v == 502 {
            Some("not implemented")
        } else if v == 503 {
            Some("bad sequence of commands")
        } else if v == 504 {
            Some("command parameter not implemented")
        } else if v == 550 {
            Some("action not taken: mailbox unavailable")
        } else if v == 551 {
            Some("user not local")
        } else if v == 552 {
            Some("mail action aborted: exceeded storage allocation")
        } else if v == 553 {
            Some("action not taken: mailbox name not allowed")
        } else if v == 554 {
            Some("transaction failed")
        } else if v == 555 {
            Some("MAIL FROM/RCPT TO parameters not recognized or not implemented")
        } else {
            None
        }
    }

    /// 211 System status or system help reply.
    pub fn system_status() -> (c: Code)
        ensures
            c.number() == 211,
    {
        Code { value: 211 }
    }

    /// 214 Help message.
    pub fn help_message() -> (c: Code)
        ensures
            c.number() == 214,
    {
        Code { value: 214 }
    }

    /// 220 Service ready.
    pub fn service_ready() -> (c: Code)
        ensures
            c.number() == 220,
    {
        Code { value: 220 }
    }

    /// 221 Service closing transmission channel.
    pub fn service_closing() -> (c: Code)
        ensures
            c.number() == 221,
    {
        Code { value: 221 }
    }

    /// 250 Requested mail action okay, completed.
    pub fn mail_action_okay() -> (c: Code)
        ensures
            c.number() == 250,
    {
        Code { value: 250 }
    }

    /// 354 Start mail input.
    pub fn start_mail_input() -> (c: Code)
        ensures
            c.number() == 354,
    {
        Code { value: 354 }
    }

    /// 500 Syntax error, command unrecognized.
    pub fn unrecognized_command() -> (c: Code)
        ensures
            c.number() == 500,
    {
        Code { value: 500 }
    }

    /// 501 Syntax error in parameters or arguments.
    pub fn bad_parameter() -> (c: Code)
        ensures
            c.number() == 501,
    {
        Code { value: 501 }
    }

    /// 502 Command not implemented.
    pub fn command_not_implemented() -> (c: Code)
        ensures
            c.number() == 502,
    {
        Code { value: 502 }
    }

    /// 504 Command parameter not implemented.
    pub fn parameter_not_implemented() -> (c: Code)
        ensures
            c.number() == 504,
    {
        Code { value: 504 }
    }

    /// 251 User not local; will forward.
    pub fn user_not_local_forward() -> (c: Code)
        ensures
            c.number() == 251,
    {
        Code { value: 251 }
    }

    /// 252 Cannot VRFY user, but will accept the message and attempt delivery.
    pub fn cannot_vrfy_accept() -> (c: Code)
        ensures
            c.number() == 252,
    {
        Code { value: 252 }
    }

    /// 421 Service not available, closing transmission channel.
    pub fn service_not_available() -> (c: Code)
        ensures
            c.number() == 421,
    {
        Code { value: 421 }
    }

    /// 450 Requested action not taken: mailbox unavailable.
    pub fn mailbox_busy() -> (c: Code)
        ensures
            c.number() == 450,
    {
        Code { value: 450 }
    }

    /// 451 Requested action aborted: local error in processing.
    pub fn local_error_in_processing() -> (c: Code)
        ensures
            c.number() == 451,
    {
        Code { value: 451 }
    }

    /// 452 Requested action not taken: insufficient system storage.
    pub fn insufficient_system_storage() -> (c: Code)
        ensures
            c.number() == 452,
    {
        Code { value: 452 }
    }

    /// 455 Server unable to accomodate parameters.
    pub fn unable_to_accomodate_parameters() -> (c: Code)
        ensures
            c.number() == 455,
    {
        Code { value: 455 }
    }

    /// 503 Bad sequence of commands.
    pub fn bad_sequence_of_commands() -> (c: Code)
        ensures
            c.number() == 503,
    {
        Code { value: 503 }
    }

    /// 550 Requested action not taken: mailbox unavailable.
    pub fn mailbox_unavailable() -> (c: Code)
        ensures
            c.number() == 550,
    {
        Code { value: 550 }
    }

    /// 551 User not local.
    pub fn user_not_local() -> (c: Code)
        ensures
            c.number() == 551,
    {
        Code { value: 551 }
    }

    /// 552 Requested mail action aborted: exceeded storage allocation.
    pub fn exceeded_storage_allocation() -> (c: Code)
        ensures
            c.number() == 552,
    {
        Code { value: 552 }
    }

    /// 553 Requested action not taken: mailbox name not allowed.
    pub fn mailbox_name_not_allowed() -> (c: Code)
        ensures
            c.number() == 553,
    {
        Code { value: 553 }
    }

    /// 554 Transaction failed.
    pub fn transaction_failed() -> (c: Code)
        ensures
            c.number() == 554,
    {
        Code { value: 554 }
    }

    /// 555 MAIL FROM/RCPT TO parameters not recognized or not implemented.
    pub fn mail_from_rcpt_to_not_implemented() -> (c: Code)
        ensures
            c.number() == 555,
    {
        Code { value: 555 }
    }
}

/// One line of a reply: the number it was written under, and its text.
pub struct ReplyLine {
    pub code: u16,
    pub text: Seq<u8>,
}

/// The three decimal digits of `code`, as ASCII.
pub open spec fn code_digits(code: u16) -> Seq<u8> {
    seq![
        (48 + (code / 100) % 10) as u8,
        (48 + (code / 10) % 10) as u8,
        (48 + code % 10) as u8,
    ]
}

/// A line on the wire: digits, the separator, the text, CR and LF.
pub open spec fn wire_line(line: ReplyLine, separator: u8) -> Seq<u8> {
    code_digits(line.code) + seq![separator] + line.text + seq![13u8, 10u8]
}

/// Every line of `lines` as a continued line, with a dash after the code.
pub open spec fn wire_continued(lines: Seq<ReplyLine>) -> Seq<u8>
    decreases lines.len(),
{
    if lines.len() == 0 {
        Seq::empty()
    } else {
        wire_continued(lines.drop_last()) + wire_line(lines.last(), 45u8)
    }
}

/// The reply on the wire: every line but the last continued, the last with
/// a space after the code.
pub open spec fn wire_reply(lines: Seq<ReplyLine>) -> Seq<u8> {
    if lines.len() == 0 {
        Seq::empty()
    } else {
        wire_continued(lines.drop_last()) + wire_line(lines.last(), 32u8)
    }
}

/// The bytes of the default text of `code`, empty where it has none.
pub open spec fn default_text_bytes(code: u16) -> Seq<u8> {
    match default_text(code) {
        Some(s) => vstd::utf8::encode_utf8(s),
        None => Seq::empty(),
    }
}

/// An SMTP reply under construction.
pub struct Reply {
    code: Option<Code>,
    data: Vec<u8>,
    dash: Option<usize>,
    lines: Ghost<Seq<ReplyLine>>,
}

impl Reply {
    /// The buffer holds the lines framed for the wire, and `dash` marks the
    /// separator of the last of them.
    pub closed spec fn wf(&self) -> bool {
        &&& self.data@ == wire_reply(self.lines@)
        &&& match self.code {
            Some(c) => c.wf(),
            None => true,
        }
        &&& forall|i: int| 0 <= i < self.lines@.len() ==> 100 <= (#[trigger] self.lines@[i]).code <= 999
        &&& match self.dash {
            Some(d) => self.lines@.len() > 0 && d == wire_continued(self.lines@.drop_last()).len() + 3,
            None => self.lines@.len() == 0,
        }
    }

    /// The number of the current code, if one was set.
    pub closed spec fn current_code(&self) -> Option<u16> {
        match self.code {
            Some(c) => Some(c.number()),
            None => None,
        }
    }

    /// The lines appended so far.
    pub closed spec fn lines(&self) -> Seq<ReplyLine> {
        self.lines@
    }

    /// The bytes that `data` returns: the lines framed for the wire.
    pub open spec fn wire(&self) -> Seq<u8> {
        wire_reply(self.lines())
    }

    /// A reply without code and without lines.
    pub fn new() -> (r: Reply)
        ensures
            r.wf(),
            r.current_code() is None,
            r.lines().len() == 0,
    {
        Reply { code: None, data: Vec::new(), dash: None, lines: Ghost(Seq::empty()) }
    }

    /// The reply as it goes on the wire.
    pub fn data(&self) -> (d: &[u8])
        requires
            self.wf(),
        ensures
            d@ == self.wire(),
    {
        self.data.as_slice()
    }

    /// Whether neither a code nor a line was given.
    pub fn is_empty(&self) -> (b: bool)
        requires
            self.wf(),
        ensures
            b == (self.current_code() is None && self.lines().len() == 0),
    {
        proof {
            if self.lines@.len() > 0 {
                assert(wire_line(self.lines@.last(), 32u8).len() >= 6);
            }
        }
        self.code.is_none() && self.data.len() == 0
    }

    /// Sets the code under which the next lines are written.
    pub fn code(&mut self, code: Code)
        requires
            old(self).wf(),
        ensures
            final(self).wf(),
            final(self).current_code() == Some(code.number()),
            final(self).lines() == old(self).lines(),
    {
        proof {
            use_type_invariant(&code);
        }
        self.code = Some(code);
    }

    /// Forgets the code and every line.
    pub fn clear(&mut self)
        requires
            old(self).wf(),
        ensures
            final(self).wf(),
            final(self).current_code() is None,
            final(self).lines().len() == 0,
    {
        self.code = None;
        self.dash = None;
        self.data.clear();
        self.lines = Ghost(Seq::empty());
    }

    /// Appends a line of text under the current code. The line that was
    /// last until now becomes a continued line.
    pub fn line(&mut self, text: &[u8])
        requires
            old(self).wf(),
            old(self).current_code() is Some,
        ensures
            final(self).wf(),
            final(self).current_code() == old(self).current_code(),
            final(self).lines() == old(self).lines().push(
                ReplyLine { code: old(self).current_code().unwrap(), text: text@ },
            ),
    {
        let code = match self.code {
            Some(c) => c,
            None => { return ; },
        };
        let v: u16 = code.value();
        let ghost old_lines = self.lines@;
        let ghost new_line = ReplyLine { code: v, text: text@ };
        let ghost before = self.data@;
        match self.dash {
            Some(d) => {
                proof {
                    assert(wire_line(old_lines.last(), 32u8).len() >= 6);
                    assert(before == wire_continued(old_lines.drop_last()) + wire_line(
                        old_lines.last(),
                        32u8,
                    ));
                }
                self.data.set(d, 45u8);
                proof {
                    assert(self.data@ =~= wire_continued(old_lines.drop_last()) + wire_line(
                        old_lines.last(),
                        45u8,
                    ));
                    assert(self.data@ == wire_continued(old_lines));
                }
            },
            None => {
                proof {
                    assert(old_lines =~= Seq::empty());
                    assert(self.data@ =~= wire_continued(old_lines));
                }
            },
        }
        let ghost continued = self.data@;
        let d2: u8 = (48 + (v / 100) % 10) as u8;
        let d1: u8 = (48 + (v / 10) % 10) as u8;
        let d0: u8 = (48 + v % 10) as u8;
        self.data.push(d2);
        self.data.push(d1);
        self.data.push(d0);
        self.data.push(32u8);
        self.dash = Some(self.data.len() - 1);
        let mut i: usize = 0;
        while i < text.len()
            invariant
                0 <= i <= text.len(),
                self.data@ == continued + code_digits(v) + seq![32u8] + text@.subrange(0, i as int),
                self.code == old(self).code,
                self.dash == Some((continued.len() + 3) as usize),
                self.lines@ == old_lines,
            decreases text.len() - i,
        {
            self.data.push(text[i]);
            proof {
                assert(text@.subrange(0, i as int).push(text@[i as int]) =~= text@.subrange(
                    0,
                    i + 1,
                ));
            }
            i = i + 1;
        }
        self.data.push(13u8);
        self.data.push(10u8);
        self.lines = Ghost(old_lines.push(new_line));
        proof {
            assert(text@.subrange(0, text@.len() as int) =~= text@);
            assert(self.lines@.drop_last() =~= old_lines);
            assert(self.lines@.last() == new_line);
            assert(self.data@ =~= continued + wire_line(new_line, 32u8));
        }
    }

    /// Completes the reply: where no line was given, the default text of
    /// the code becomes its only line.
    pub fn finish(&mut self)
        requires
            old(self).wf(),
            old(self).current_code() is Some || old(self).lines().len() > 0,
        ensures
            final(self).wf(),
            final(self).current_code() == old(self).current_code(),
            old(self).lines().len() > 0 ==> final(self).lines() == old(self).lines(),
            old(self).lines().len() == 0 ==> final(self).lines() == seq![
                ReplyLine {
                    code: old(self).current_code().unwrap(),
                    text: default_text_bytes(old(self).current_code().unwrap()),
                },
            ],
    {
        proof {
            if self.lines@.len() > 0 {
                assert(wire_line(self.lines@.last(), 32u8).len() >= 6);
            }
        }
        if self.data.len() != 0 {
            return ;
        }
        let code = match self.code {
            Some(c) => c,
            None => { return ; },
        };
        match code.text() {
            Some(s) => {
                self.line(s.as_bytes());
            },
            None => {
                let empty: Vec<u8> = Vec::new();
                self.line(empty.as_slice());
            },
        }
        proof {
            assert(old(self).lines() =~= Seq::empty());
            assert(Seq::<ReplyLine>::empty().push(
                ReplyLine {
                    code: old(self).current_code().unwrap(),
                    text: default_text_bytes(old(self).current_code().unwrap()),
                },
            ) =~= seq![
                ReplyLine {
                    code: old(self).current_code().unwrap(),
                    text: default_text_bytes(old(self).current_code().unwrap()),
                },
            ]);
        }
    }
}

impl Default for Reply {
    fn default() -> (r: Reply)
        ensures
            r.wf(),
            r.current_code() is None,
            r.lines().len() == 0,
    {
        Reply::new()
    }
}

} // verus!
