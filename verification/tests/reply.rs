use mercury::smtp::reply::{Code, Reply};

#[test]
fn two_lines_serialise_with_dash_then_space() {
    let mut reply = Reply::new();
    reply.code(Code::mail_action_okay());
    reply.line(b"first");
    reply.line(b"second");
    reply.finish();
    assert_eq!(reply.data(), b"250-first\r\n250 second\r\n");
}

#[test]
fn three_lines_continue_all_but_the_last() {
    let mut reply = Reply::new();
    reply.code(Code::mail_action_okay());
    reply.line(b"mail.example.org");
    reply.line(b"8BITMIME");
    reply.line(b"");
    assert_eq!(
        reply.data(),
        b"250-mail.example.org\r\n250-8BITMIME\r\n250 \r\n"
    );
}

#[test]
fn finish_without_line_writes_the_default_text() {
    let mut reply = Reply::new();
    reply.code(Code::service_ready());
    reply.finish();
    assert_eq!(reply.data(), b"220 service ready\r\n");

    reply.clear();
    reply.code(Code::unrecognized_command());
    reply.finish();
    assert_eq!(reply.data(), b"500 syntax error, command unrecognized\r\n");

    reply.clear();
    reply.code(Code::start_mail_input());
    reply.finish();
    assert_eq!(reply.data(), b"354 start mail input\r\n");
}

#[test]
fn finish_keeps_the_lines_that_were_given() {
    let mut reply = Reply::new();
    reply.code(Code::mail_action_okay());
    reply.line(b"hello");
    reply.finish();
    reply.finish();
    assert_eq!(reply.data(), b"250 hello\r\n");
}

#[test]
fn code_without_default_text_gets_an_empty_line() {
    let mut reply = Reply::new();
    reply.code(Code::system_status());
    reply.finish();
    assert_eq!(reply.data(), b"211 \r\n");

    let mut reply = Reply::new();
    reply.code(Code::new(299).unwrap());
    reply.finish();
    assert_eq!(reply.data(), b"299 \r\n");
}

#[test]
fn every_listed_code_is_accepted() {
    let listed: [u16; 24] = [
        211, 214, 220, 221, 250, 251, 252, 354, 421, 450, 451, 452, 455, 500, 501, 502, 503, 504,
        550, 551, 552, 553, 554, 555,
    ];
    for n in listed {
        let code = Code::new(n).unwrap();
        assert_eq!(code.value(), n);
        let mut reply = Reply::new();
        reply.code(code);
        reply.finish();
        let text = code.text().unwrap_or("");
        assert_eq!(reply.data(), format!("{} {}\r\n", n, text).as_bytes());
    }
    assert_eq!(Code::new(211).unwrap().text(), None);
    assert_eq!(Code::new(214).unwrap().text(), None);
    assert_eq!(Code::new(554).unwrap().text(), Some("transaction failed"));
}

#[test]
fn numbers_without_three_digits_are_no_codes() {
    assert!(Code::new(0).is_err());
    assert!(Code::new(99).is_err());
    assert!(Code::new(1000).is_err());
    assert!(Code::new(100).is_ok());
    assert!(Code::new(999).is_ok());
}

#[test]
fn clear_empties_the_reply() {
    let mut reply = Reply::new();
    assert!(reply.is_empty());
    reply.code(Code::mail_action_okay());
    assert!(!reply.is_empty());
    reply.line(b"x");
    reply.clear();
    assert!(reply.is_empty());
    assert_eq!(reply.data(), b"");
}

#[test]
fn the_code_may_change_between_lines() {
    let mut reply = Reply::new();
    reply.code(Code::mail_action_okay());
    reply.line(b"a");
    reply.code(Code::bad_parameter());
    reply.line(b"b");
    assert_eq!(reply.data(), b"250-a\r\n501 b\r\n");
}

#[test]
fn the_default_reply_is_empty() {
    let reply = Reply::default();
    assert!(reply.is_empty());
    assert_eq!(reply.data(), b"");
}
