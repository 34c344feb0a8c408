use mercury::smtp::reply::Reply;
use mercury::smtp::session::{Mode, RawMail, Session};

/// Hands `input` to the session as the connection would, and gives the
/// reply on the wire and the message that came out.
fn exchange(session: &mut Session, input: &[u8]) -> (Vec<u8>, Option<RawMail>) {
    if !input.is_empty() {
        session.buffer_mut().extend_from_slice(input);
        assert!(session.received());
    }
    let mut reply = Reply::new();
    let mail = session.on_recv(&mut reply);
    reply.finish();
    (reply.data().to_vec(), mail)
}

fn reply_to(session: &mut Session, input: &[u8]) -> Vec<u8> {
    let (reply, mail) = exchange(session, input);
    assert!(mail.is_none());
    reply
}

#[test]
fn minimal_transaction() {
    let mut session = Session::new();
    assert_eq!(reply_to(&mut session, b""), b"220 service ready\r\n");
    assert_eq!(reply_to(&mut session, b"EHLO client.example\r\n"), b"250 ok\r\n");
    assert_eq!(reply_to(&mut session, b"MAIL FROM:<a@b.test>\r\n"), b"250 ok\r\n");
    assert_eq!(reply_to(&mut session, b"RCPT TO:<c@d.test>\r\n"), b"250 ok\r\n");
    assert_eq!(reply_to(&mut session, b"DATA\r\n"), b"354 start mail input\r\n");
    assert_eq!(session.mode(), Mode::Data);
    assert_eq!(session.terminator(), b"\r\n.\r\n");

    let (reply, mail) = exchange(&mut session, b"Subject: hi\r\n\r\nhello\r\n.\r\n");
    assert_eq!(reply, b"250 ok\r\n");
    assert_eq!(
        mail,
        Some(RawMail {
            reverse_path: "a@b.test".to_owned(),
            forward_path: vec!["c@d.test".to_owned()],
            data: b"Subject: hi\r\n\r\nhello".to_vec(),
        })
    );
    assert_eq!(session.mode(), Mode::Line);
    assert!(!session.closed());

    assert_eq!(reply_to(&mut session, b"QUIT\r\n"), b"221 closing\r\n");
    assert!(session.closed());
}

#[test]
fn empty_reverse_path() {
    let mut session = Session::new();
    reply_to(&mut session, b"");
    assert_eq!(reply_to(&mut session, b"MAIL FROM:<>\r\n"), b"250 ok\r\n");
    reply_to(&mut session, b"RCPT TO:<c@d.test>\r\n");
    reply_to(&mut session, b"DATA\r\n");
    let (_, mail) = exchange(&mut session, b"x\r\n.\r\n");
    assert_eq!(mail.unwrap().reverse_path, "");
}

#[test]
fn unknown_command() {
    let mut session = Session::new();
    reply_to(&mut session, b"");
    assert_eq!(
        reply_to(&mut session, b"FOOBAR\r\n"),
        b"500 syntax error, command unrecognized\r\n"
    );
    assert_eq!(session.mode(), Mode::Line);
    assert_eq!(session.terminator(), b"\r\n");
    assert_eq!(reply_to(&mut session, b"NOOP\r\n"), b"250 ok\r\n");
}

#[test]
fn rset_after_rcpt() {
    let mut session = Session::new();
    reply_to(&mut session, b"");
    reply_to(&mut session, b"MAIL FROM:<a@x>\r\n");
    reply_to(&mut session, b"RCPT TO:<b@y>\r\n");
    assert_eq!(reply_to(&mut session, b"RSET\r\n"), b"250 ok\r\n");
    assert_eq!(reply_to(&mut session, b"DATA\r\n"), b"354 start mail input\r\n");
    let (reply, mail) = exchange(&mut session, b"body\r\n.\r\n");
    assert_eq!(reply, b"250 ok\r\n");
    assert_eq!(
        mail,
        Some(RawMail::new(String::new(), Vec::new(), b"body".to_vec()))
    );
}

#[test]
fn bad_parameter_keeps_the_session_in_line_mode() {
    let mut session = Session::new();
    reply_to(&mut session, b"");
    assert_eq!(
        reply_to(&mut session, b"MAIL FROM:nobody\r\n"),
        b"501 syntax error in parameters or arguments\r\n"
    );
    assert_eq!(session.mode(), Mode::Line);
}

#[test]
fn vrfy_expn_help_are_not_implemented() {
    let mut session = Session::new();
    reply_to(&mut session, b"");
    assert_eq!(reply_to(&mut session, b"VRFY someone\r\n"), b"502 not implemented\r\n");
    assert_eq!(reply_to(&mut session, b"EXPN list\r\n"), b"502 not implemented\r\n");
    assert_eq!(reply_to(&mut session, b"HELP\r\n"), b"502 not implemented\r\n");
    assert_eq!(reply_to(&mut session, b"HELO mail.example.org\r\n"), b"250 ok\r\n");
}

#[test]
fn rcpt_without_mail_is_accepted() {
    let mut session = Session::new();
    reply_to(&mut session, b"");
    assert_eq!(reply_to(&mut session, b"RCPT TO:<c@d.test>\r\n"), b"250 ok\r\n");
    reply_to(&mut session, b"DATA\r\n");
    let (_, mail) = exchange(&mut session, b"\r\n.\r\n");
    let mail = mail.unwrap();
    assert_eq!(mail.reverse_path, "");
    assert_eq!(mail.forward_path, vec!["c@d.test".to_owned()]);
    assert_eq!(mail.data, b"");
}

#[test]
fn mail_starts_a_new_envelope() {
    let mut session = Session::new();
    reply_to(&mut session, b"");
    reply_to(&mut session, b"MAIL FROM:<a@x>\r\n");
    reply_to(&mut session, b"RCPT TO:<b@y>\r\n");
    reply_to(&mut session, b"RCPT TO:<c@z>\r\n");
    reply_to(&mut session, b"MAIL FROM:<d@x>\r\n");
    reply_to(&mut session, b"RCPT TO:<e@y>\r\n");
    reply_to(&mut session, b"DATA\r\n");
    let (_, mail) = exchange(&mut session, b"one\r\n.\r\n");
    assert_eq!(
        mail,
        Some(RawMail::new(
            "d@x".to_owned(),
            vec!["e@y".to_owned()],
            b"one".to_vec()
        ))
    );
    reply_to(&mut session, b"DATA\r\n");
    let (_, mail) = exchange(&mut session, b"two\r\n.\r\n");
    assert_eq!(
        mail,
        Some(RawMail::new(String::new(), Vec::new(), b"two".to_vec()))
    );
}

#[test]
fn stuffed_dots_stay_in_the_message() {
    let mut session = Session::new();
    reply_to(&mut session, b"");
    reply_to(&mut session, b"DATA\r\n");
    let (_, mail) = exchange(&mut session, b"a\r\n..b\r\n.\r\n");
    let mail = mail.unwrap();
    assert_eq!(mail.data, b"a\r\n..b");
    assert!(!mail.data.ends_with(b"\r\n.\r\n"));
}

#[test]
fn data_without_terminator_goes_out_whole() {
    let mut session = Session::new();
    reply_to(&mut session, b"");
    reply_to(&mut session, b"DATA\r\n");
    session.buffer_mut().extend_from_slice(b"cut off");
    assert!(!session.received());
    let mut reply = Reply::new();
    let mail = session.on_recv(&mut reply);
    assert_eq!(mail.unwrap().data, b"cut off");
}

#[test]
fn line_is_complete_at_crlf_only() {
    let mut session = Session::new();
    reply_to(&mut session, b"");
    session.buffer_mut().extend_from_slice(b"NOOP\r");
    assert!(!session.received());
    session.buffer_mut().extend_from_slice(b"\n");
    assert!(session.received());
}

#[test]
fn a_parameter_after_data_is_not_implemented() {
    let mut session = Session::new();
    reply_to(&mut session, b"");
    assert_eq!(
        reply_to(&mut session, b"DATA SIZE=1\r\n"),
        b"504 command parameter not implemented\r\n"
    );
    assert_eq!(session.mode(), Mode::Line);
}
