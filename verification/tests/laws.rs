use mercury::header::map::HeaderMap;
use mercury::smtp::command::Command;
use mercury::smtp::reply::Reply;
use mercury::smtp::session::Session;

/// A small generator of numbers, the same on every run.
struct Numbers(u64);

impl Numbers {
    fn next(&mut self, below: usize) -> usize {
        self.0 = self
            .0
            .wrapping_mul(6364136223846793005)
            .wrapping_add(1442695040888963407);
        ((self.0 >> 33) as usize) % below
    }

    fn pick<'a>(&mut self, from: &[&'a [u8]]) -> &'a [u8] {
        from[self.next(from.len())]
    }

    fn text(&mut self, alphabet: &[u8], longest: usize) -> Vec<u8> {
        let len = self.next(longest + 1);
        (0..len).map(|_| alphabet[self.next(alphabet.len())]).collect()
    }
}

const DOMAINS: [&[u8]; 8] = [
    b"a",
    b"example.org",
    b"a-b.c--d.e9",
    b"9.8.7",
    b"[10.0.0.1]",
    b"[IPv6:1:2:3:4:5:6:7:8]",
    b"[ipv6:a::b:1.2.3.4]",
    b"[tag:data]",
];

const LOCALS: [&[u8]; 6] = [
    b"a",
    b"first.last",
    b"a+b=c",
    b"\"quoted text\"",
    b"\"a\\\"b\"",
    b"Postmaster",
];

const PARAMS: [&[u8]; 5] = [b"", b" SIZE=10", b" A=b C=d", b" x=1 y=2 x=3", b" BODY=8BITMIME"];

const BLANKS: [&[u8]; 4] = [b"", b" ", b"\t ", b" \x0c"];

fn join(parts: &[&[u8]]) -> Vec<u8> {
    parts.concat()
}

#[test]
fn lines_of_parsed_commands_parse_to_the_same_command() {
    let mut numbers = Numbers(1);
    let mut lines: Vec<Vec<u8>> = Vec::new();
    for _ in 0..400 {
        let domain = numbers.pick(&DOMAINS);
        let local = numbers.pick(&LOCALS);
        let params = numbers.pick(&PARAMS);
        let blank = numbers.pick(&BLANKS);
        let string = numbers.pick(&LOCALS);
        lines.push(join(&[b"ehlo ", domain, blank, b"\r\n"]));
        lines.push(join(&[b"HELO ", domain, blank, b"\r\n"]));
        lines.push(join(&[
            b"Mail From:<", local, b"@", domain, b">", params, blank, b"\r\n",
        ]));
        lines.push(join(&[
            b"RCPT to:<@x.y,@z:", local, b"@", domain, b">", params, blank, b"\r\n",
        ]));
        lines.push(join(&[b"vrfy ", string, blank, b"\r\n"]));
        lines.push(join(&[b"EXPN ", string, blank, b"\r\n"]));
        lines.push(join(&[b"help ", string, blank, b"\r\n"]));
        lines.push(join(&[b"NOOP", blank, b"\r\n"]));
        let mut noise = numbers.text(b"EHLOMAIRCPTDVYXNQUS fromto:<>@.[]-\"\\ab1=\r\n", 24);
        noise.extend_from_slice(b"\r\n");
        lines.push(noise);
    }
    let mut parsed = 0;
    for line in &lines {
        if let Ok(command) = Command::parse(line) {
            parsed += 1;
            let written = command.to_line();
            assert_eq!(Command::parse(&written), Ok(command));
        }
    }
    assert!(parsed > 1500);
}

#[test]
fn parsed_header_maps_have_distinct_ascii_keys_and_normal_values() {
    let mut numbers = Numbers(2);
    let mut parsed = 0;
    for _ in 0..3000 {
        let mut block: Vec<u8> = Vec::new();
        for _ in 0..numbers.next(5) {
            block.extend(numbers.text(b"AaBbXx-", 3));
            block.push(b'A' + numbers.next(3) as u8);
            block.extend(numbers.text(b" \t", 1));
            block.push(b':');
            block.extend(numbers.text(b"ab \t\r\n\x0b\x0c\x01,\r\n \r\n\t", 12));
            block.extend_from_slice(b"\r\n");
        }
        block.extend_from_slice(b"\r\n");
        block.extend(numbers.text(b"body\r\n", 6));
        if let Ok((_, map)) = HeaderMap::parse(&block) {
            parsed += 1;
            let entries = map.iter();
            for (i, (key, value)) in entries.iter().enumerate() {
                assert!(key.as_bytes().is_ascii());
                for (other, _) in &entries[i + 1..] {
                    assert!(!key.as_bytes().eq_ignore_ascii_case(other.as_bytes()));
                }
                assert!(!value.contains("\r\n"));
                assert!(!value.contains('\r'));
                assert!(!value.contains('\n'));
                let trimmed = value.trim_matches(|c: char| c.is_ascii() && c.is_whitespace());
                assert_eq!(trimmed, value);
            }
        }
    }
    assert!(parsed > 300);
}

#[test]
fn emitted_messages_do_not_end_with_the_terminator() {
    let mut numbers = Numbers(3);
    for _ in 0..2000 {
        let mut data = numbers.text(b"a.\r\n", 12);
        data.extend_from_slice(b"\r\n.\r\n");
        let doubled = data.ends_with(b"\r\n.\r\n\r\n.\r\n");

        let mut session = Session::new();
        let mut reply = Reply::new();
        session.on_recv(&mut reply);
        session.buffer_mut().extend_from_slice(b"DATA\r\n");
        session.on_recv(&mut reply);
        session.buffer_mut().extend_from_slice(&data);
        let mail = session.on_recv(&mut reply).unwrap();
        assert_eq!(mail.data, &data[..data.len() - 5]);
        if !doubled {
            assert!(!mail.data.ends_with(b"\r\n.\r\n"));
        }
    }
}

#[test]
fn a_doubled_terminator_leaves_one_behind() {
    let mut session = Session::new();
    let mut reply = Reply::new();
    session.on_recv(&mut reply);
    session.buffer_mut().extend_from_slice(b"DATA\r\n");
    session.on_recv(&mut reply);
    session.buffer_mut().extend_from_slice(b"x\r\n.\r\n\r\n.\r\n");
    let mail = session.on_recv(&mut reply).unwrap();
    assert_eq!(mail.data, b"x\r\n.\r\n");
}
