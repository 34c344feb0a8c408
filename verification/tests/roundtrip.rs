use mercury::smtp::command::Command;

/// Parses `line`, writes the command as a line, and parses that line.
fn round_trip(line: &[u8]) -> (Command, Vec<u8>) {
    let command = Command::parse(line).unwrap();
    let written = command.to_line();
    assert_eq!(Command::parse(&written), Ok(command.clone()));
    (command, written)
}

#[test]
fn lines_without_arguments_round_trip() {
    assert_eq!(round_trip(b"data\r\n").1, b"DATA\r\n");
    assert_eq!(round_trip(b"RSET  \r\n").1, b"RSET\r\n");
    assert_eq!(round_trip(b"Quit\t\r\n").1, b"QUIT\r\n");
    assert_eq!(round_trip(b"NOOP\r\n").1, b"NOOP\r\n");
    assert_eq!(round_trip(b"help \r\n").1, b"HELP\r\n");
}

#[test]
fn domains_round_trip() {
    assert_eq!(round_trip(b"helo Mail.Example.ORG \r\n").1, b"HELO Mail.Example.ORG\r\n");
    assert_eq!(round_trip(b"EHLO a-b.c--d.e\r\n").1, b"EHLO a-b.c--d.e\r\n");
}

#[test]
fn address_literals_round_trip() {
    assert_eq!(round_trip(b"EHLO [192.168.1.1]\r\n").1, b"EHLO 192.168.1.1\r\n");
    assert_eq!(round_trip(b"EHLO [ipv6:fe80::1]\r\n").1, b"EHLO [fe80::1]\r\n");
    assert_eq!(round_trip(b"EHLO [IPv6:::1]\r\n").1, b"EHLO [IPv6:::1]\r\n");
    assert_eq!(round_trip(b"EHLO [IPv6:::]\r\n").1, b"EHLO [IPv6:::]\r\n");
    assert_eq!(
        round_trip(b"EHLO [iPV6:::ffff:192.0.2.1]\r\n").1,
        b"EHLO [IPv6:::ffff:192.0.2.1]\r\n"
    );
    assert_eq!(round_trip(b"EHLO [x-tag:content]\r\n").1, b"EHLO [x-tag:content]\r\n");
}

#[test]
fn strings_round_trip() {
    assert_eq!(round_trip(b"VRFY test\r\n").1, b"VRFY test\r\n");
    assert_eq!(round_trip(b"VRFY \"test\"\r\n").1, b"VRFY test\r\n");
    assert_eq!(round_trip(b"EXPN \"a list\"\r\n").1, b"EXPN \"a list\"\r\n");
    assert_eq!(round_trip(b"expn \"\"\r\n").1, b"EXPN \"\"\r\n");
    assert_eq!(round_trip(b"HELP \"\"\r\n").1, b"HELP\r\n");
    assert_eq!(round_trip(b"NOOP \"a\\\\b\"  \r\n").1, b"NOOP \"a\\\\b\"\r\n");
}

#[test]
fn envelopes_round_trip() {
    assert_eq!(round_trip(b"MAIL FROM:<>\r\n").1, b"MAIL FROM:<>\r\n");
    assert_eq!(
        round_trip(b"mail from:<a@b.test> SIZE=1 BODY=8BITMIME SIZE=2 \r\n").1,
        b"MAIL FROM:<a@b.test> SIZE=2 BODY=8BITMIME\r\n"
    );
    assert_eq!(
        round_trip(b"RCPT TO:<@one.example,@two.example:user@three.example>\r\n").1,
        b"RCPT TO:<user@three.example>\r\n"
    );
    assert_eq!(round_trip(b"rcpt to:<postMASTER>\r\n").1, b"RCPT TO:<postMASTER>\r\n");
    assert_eq!(
        round_trip(b"RCPT TO:<\"a b\"@[IPv6:1::2]> NOTIFY=NEVER\r\n").1,
        b"RCPT TO:<\"a b\"@[IPv6:1::2]> NOTIFY=NEVER\r\n"
    );
}
