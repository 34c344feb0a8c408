use mercury::smtp::command::Command;
use mercury::smtp::reply::Code;

fn code(c: Code) -> u16 {
    c.value()
}

#[test]
fn parse_ehlo_domain() {
    assert_eq!(
        Command::parse(b"EHLO rust-lang.org\r\n"),
        Ok(Command::EHLO {
            domain: "rust-lang.org".to_owned()
        })
    );
}

#[test]
fn parse_ehlo_ipv4() {
    assert_eq!(
        Command::parse(b"EHLO [192.168.1.1]\r\n"),
        Ok(Command::EHLO {
            domain: "192.168.1.1".to_owned()
        })
    );
}

#[test]
fn parse_mail_simple() {
    assert_eq!(
        Command::parse(b"MAIL FROM:<no-reply@rust-lang.org>\r\n"),
        Ok(Command::MAIL {
            reverse_path: "no-reply@rust-lang.org".to_owned(),
            mail_parameters: Vec::new()
        })
    );
}

#[test]
fn parse_mail_empty() {
    assert_eq!(
        Command::parse(b"MAIL FROM:<>\r\n"),
        Ok(Command::MAIL {
            reverse_path: "".to_owned(),
            mail_parameters: Vec::new()
        })
    );
}

#[test]
fn parse_mail_with_parameters() {
    let params = vec![
        ("first".to_owned(), "first_value".to_owned()),
        ("second".to_owned(), "second-value".to_owned()),
    ];

    assert_eq!(
        Command::parse(
            b"MAIL FROM:<no-reply@rust-lang.org> first=first_value second=second-value\r\n"
        ),
        Ok(Command::MAIL {
            reverse_path: "no-reply@rust-lang.org".to_owned(),
            mail_parameters: params,
        })
    );
}

#[test]
fn parse_rcpt_simple() {
    assert_eq!(
        Command::parse(b"RCPT TO:<no-reply@rust-lang.org>\r\n"),
        Ok(Command::RCPT {
            forward_path: "no-reply@rust-lang.org".to_owned(),
            rcpt_parameters: Vec::new()
        })
    );
}

#[test]
fn parse_rcpt_postmaster() {
    assert_eq!(
        Command::parse(b"RCPT TO:<Postmaster>\r\n"),
        Ok(Command::RCPT {
            forward_path: "Postmaster".to_owned(),
            rcpt_parameters: Vec::new()
        })
    );
}

#[test]
fn parse_rcpt_with_parameters() {
    let params = vec![
        ("first".to_owned(), "first_value".to_owned()),
        ("second".to_owned(), "second-value".to_owned()),
    ];

    assert_eq!(
        Command::parse(
            b"RCPT TO:<no-reply@rust-lang.org> first=first_value second=second-value\r\n"
        ),
        Ok(Command::RCPT {
            forward_path: "no-reply@rust-lang.org".to_owned(),
            rcpt_parameters: params,
        })
    );
}

#[test]
fn parse_data() {
    assert_eq!(Command::parse(b"DATA\r\n"), Ok(Command::DATA));
}

#[test]
fn parse_rset() {
    assert_eq!(Command::parse(b"RSET\r\n"), Ok(Command::RSET));
}

#[test]
fn parse_vrfy_simple() {
    assert_eq!(
        Command::parse(b"VRFY test\r\n"),
        Ok(Command::VRFY {
            string: "test".to_owned()
        })
    );
}

#[test]
fn parse_vrfy_quoted() {
    assert_eq!(
        Command::parse(b"VRFY \"test\"\r\n"),
        Ok(Command::VRFY {
            string: "test".to_owned()
        })
    );
}

#[test]
fn parse_expn_simple() {
    assert_eq!(
        Command::parse(b"EXPN test\r\n"),
        Ok(Command::EXPN {
            string: "test".to_owned()
        })
    );
}

#[test]
fn parse_expn_quoted() {
    assert_eq!(
        Command::parse(b"EXPN \"test\"\r\n"),
        Ok(Command::EXPN {
            string: "test".to_owned()
        })
    );
}

#[test]
fn parse_help_simple() {
    assert_eq!(
        Command::parse(b"HELP test\r\n"),
        Ok(Command::HELP {
            string: "test".to_owned()
        })
    );
}

#[test]
fn parse_help_quoted() {
    assert_eq!(
        Command::parse(b"HELP \"test\"\r\n"),
        Ok(Command::HELP {
            string: "test".to_owned()
        })
    );
}

#[test]
fn parse_help_empty() {
    assert_eq!(
        Command::parse(b"HELP\r\n"),
        Ok(Command::HELP {
            string: String::new()
        })
    );
}

#[test]
fn parse_noop_simple() {
    assert_eq!(
        Command::parse(b"NOOP test\r\n"),
        Ok(Command::NOOP {
            string: "test".to_owned()
        })
    );
}

#[test]
fn parse_noop_quoted() {
    assert_eq!(
        Command::parse(b"NOOP \"test\"\r\n"),
        Ok(Command::NOOP {
            string: "test".to_owned()
        })
    );
}

#[test]
fn parse_noop_empty() {
    assert_eq!(
        Command::parse(b"NOOP\r\n"),
        Ok(Command::NOOP {
            string: String::new()
        })
    );
}

#[test]
fn parse_quit() {
    assert_eq!(Command::parse(b"QUIT\r\n"), Ok(Command::QUIT));
}

#[test]
fn verbs_match_in_any_case() {
    assert_eq!(
        Command::parse(b"ehlo client.example\r\n"),
        Ok(Command::EHLO {
            domain: "client.example".to_owned()
        })
    );
    assert_eq!(Command::parse(b"qUiT\r\n"), Ok(Command::QUIT));
    assert_eq!(
        Command::parse(b"mail from:<a@b.test>\r\n"),
        Ok(Command::MAIL {
            reverse_path: "a@b.test".to_owned(),
            mail_parameters: Vec::new()
        })
    );
}

#[test]
fn unknown_verb_is_500() {
    assert_eq!(Command::parse(b"FOOBAR\r\n").map_err(code), Err(500));
    assert_eq!(Command::parse(b"\r\n").map_err(code), Err(500));
    assert_eq!(Command::parse(b"").map_err(code), Err(500));
}

#[test]
fn missing_crlf_is_500() {
    assert_eq!(Command::parse(b"DATA").map_err(code), Err(500));
    assert_eq!(Command::parse(b"DATA\n").map_err(code), Err(500));
    assert_eq!(Command::parse(b"DATA\r\nQUIT\r\n").map_err(code), Err(500));
}

#[test]
fn garbage_after_arguments_is_500() {
    assert_eq!(Command::parse(b"DATA now\r\n").map_err(code), Err(500));
    assert_eq!(
        Command::parse(b"EHLO rust-lang.org-\r\n").map_err(code),
        Err(500)
    );
    assert_eq!(
        Command::parse(b"MAIL FROM:<a@b.test> nokey\r\n").map_err(code),
        Err(500)
    );
}

#[test]
fn malformed_arguments_are_501() {
    assert_eq!(Command::parse(b"EHLO\r\n").map_err(code), Err(501));
    assert_eq!(Command::parse(b"EHLO -bad\r\n").map_err(code), Err(501));
    assert_eq!(Command::parse(b"HELO [192.168.1.1]\r\n").map_err(code), Err(501));
    assert_eq!(Command::parse(b"MAIL FROM:a@b.test\r\n").map_err(code), Err(501));
    assert_eq!(Command::parse(b"MAIL TO:<a@b.test>\r\n").map_err(code), Err(501));
    assert_eq!(Command::parse(b"RCPT TO:<>\r\n").map_err(code), Err(501));
    assert_eq!(Command::parse(b"VRFY\r\n").map_err(code), Err(501));
    assert_eq!(Command::parse(b"VRFY \"open\r\n").map_err(code), Err(501));
}

#[test]
fn trailing_white_space_is_tolerated() {
    assert_eq!(Command::parse(b"DATA \t \r\n"), Ok(Command::DATA));
    assert_eq!(
        Command::parse(b"NOOP \r\n"),
        Ok(Command::NOOP {
            string: String::new()
        })
    );
    assert_eq!(
        Command::parse(b"HELO mail.example.org  \r\n"),
        Ok(Command::HELO {
            domain: "mail.example.org".to_owned()
        })
    );
}

#[test]
fn local_part_may_hold_dots_and_quotes() {
    assert_eq!(
        Command::parse(b"MAIL FROM:<first.last@example.org>\r\n"),
        Ok(Command::MAIL {
            reverse_path: "first.last@example.org".to_owned(),
            mail_parameters: Vec::new()
        })
    );
    assert_eq!(
        Command::parse(b"RCPT TO:<\"a b\\\"c\"@example.org>\r\n"),
        Ok(Command::RCPT {
            forward_path: "\"a b\\\"c\"@example.org".to_owned(),
            rcpt_parameters: Vec::new()
        })
    );
    assert_eq!(
        Command::parse(b"MAIL FROM:<a..b@example.org>\r\n").map_err(code),
        Err(501)
    );
}

#[test]
fn source_route_is_dropped() {
    assert_eq!(
        Command::parse(b"RCPT TO:<@one.example,@two.example:user@three.example>\r\n"),
        Ok(Command::RCPT {
            forward_path: "user@three.example".to_owned(),
            rcpt_parameters: Vec::new()
        })
    );
}

#[test]
fn postmaster_in_any_case() {
    assert_eq!(
        Command::parse(b"RCPT TO:<postMASTER>\r\n"),
        Ok(Command::RCPT {
            forward_path: "postMASTER".to_owned(),
            rcpt_parameters: Vec::new()
        })
    );
    assert_eq!(
        Command::parse(b"RCPT TO:<Postmaster@example.org>\r\n"),
        Ok(Command::RCPT {
            forward_path: "Postmaster@example.org".to_owned(),
            rcpt_parameters: Vec::new()
        })
    );
}

#[test]
fn address_literals() {
    assert_eq!(
        Command::parse(b"MAIL FROM:<user@[10.0.0.1]>\r\n"),
        Ok(Command::MAIL {
            reverse_path: "user@[10.0.0.1]".to_owned(),
            mail_parameters: Vec::new()
        })
    );
    assert_eq!(
        Command::parse(b"EHLO [IPv6:1:2:3:4:5:6:7:8]\r\n"),
        Ok(Command::EHLO {
            domain: "1:2:3:4:5:6:7:8".to_owned()
        })
    );
    assert_eq!(
        Command::parse(b"EHLO [ipv6:fe80::1]\r\n"),
        Ok(Command::EHLO {
            domain: "fe80::1".to_owned()
        })
    );
    assert_eq!(
        Command::parse(b"EHLO [IPv6:::]\r\n"),
        Ok(Command::EHLO {
            domain: "::".to_owned()
        })
    );
    assert_eq!(
        Command::parse(b"EHLO [IPv6:1:2:3:4:5:6:192.0.2.1]\r\n"),
        Ok(Command::EHLO {
            domain: "1:2:3:4:5:6:192.0.2.1".to_owned()
        })
    );
    assert_eq!(
        Command::parse(b"EHLO [IPv6:::ffff:192.0.2.1]\r\n"),
        Ok(Command::EHLO {
            domain: "::ffff:192.0.2.1".to_owned()
        })
    );
    assert_eq!(
        Command::parse(b"EHLO [x-tag:content]\r\n"),
        Ok(Command::EHLO {
            domain: "x-tag:content".to_owned()
        })
    );
    assert_eq!(Command::parse(b"EHLO [1.2.3]\r\n").map_err(code), Err(501));
    assert_eq!(Command::parse(b"EHLO [1.2.3.4\r\n").map_err(code), Err(501));
    assert_eq!(Command::parse(b"EHLO [1.2.3.4444]\r\n").map_err(code), Err(501));
    assert_eq!(
        Command::parse(b"EHLO [IPv6:1:2:3:4:5:6:7]\r\n"),
        Ok(Command::EHLO {
            domain: "IPv6:1:2:3:4:5:6:7".to_owned()
        })
    );
    assert_eq!(
        Command::parse(b"EHLO [IPv6:1::2 3]\r\n").map_err(code),
        Err(501)
    );
    assert_eq!(Command::parse(b"EHLO [tag-:x]\r\n").map_err(code), Err(501));
}

#[test]
fn repeated_parameter_keeps_its_place_and_takes_the_last_value() {
    assert_eq!(
        Command::parse(b"MAIL FROM:<a@b.test> SIZE=1 BODY=8BITMIME SIZE=2\r\n"),
        Ok(Command::MAIL {
            reverse_path: "a@b.test".to_owned(),
            mail_parameters: vec![
                ("SIZE".to_owned(), "2".to_owned()),
                ("BODY".to_owned(), "8BITMIME".to_owned()),
            ],
        })
    );
}

#[test]
fn bytes_above_ascii_never_parse() {
    assert_eq!(Command::parse(b"VRFY \xc3\xa9\r\n").map_err(code), Err(501));
    assert_eq!(Command::parse(b"DATA\xff\r\n").map_err(code), Err(500));
}

#[test]
fn a_parameter_that_a_command_does_not_take_is_504() {
    assert_eq!(Command::parse(b"DATA SIZE=1\r\n").map_err(code), Err(504));
    assert_eq!(Command::parse(b"QUIT \tX=1\r\n").map_err(code), Err(504));
    assert_eq!(
        Command::parse(b"EHLO mail.example.org A=b\r\n").map_err(code),
        Err(504)
    );
    assert_eq!(
        Command::parse(b"MAIL FROM:<a@b.test>  SIZE=1\r\n").map_err(code),
        Err(504)
    );
    assert_eq!(
        Command::parse(b"MAIL FROM:<a@b.test> UNKNOWN-KEY=1\r\n"),
        Ok(Command::MAIL {
            reverse_path: "a@b.test".to_owned(),
            mail_parameters: vec![("UNKNOWN-KEY".to_owned(), "1".to_owned())],
        })
    );
    assert_eq!(Command::parse(b"DATASIZE=1\r\n").map_err(code), Err(500));
    assert_eq!(
        Command::parse(b"RCPT TO:<a@b.test> KEY\r\n").map_err(code),
        Err(500)
    );
    assert_eq!(
        Command::parse(b"RCPT TO:<a@b.test> KEY=\r\n").map_err(code),
        Err(500)
    );
}
