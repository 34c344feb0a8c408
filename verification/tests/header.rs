use mercury::header::map::HeaderMap;
use mercury::header::name::{HeaderName, Order};
use mercury::header::parser::{is_ftext, unstructured};
use mercury::header::parts::Address;
use mercury::header::typed::{From, Sender, Subject, To, TypedHeader};

fn name(s: &str) -> HeaderName {
    HeaderName::from_str(s).unwrap()
}

fn parse(block: &[u8]) -> (Vec<u8>, HeaderMap) {
    let (rest, map) = HeaderMap::parse(block).unwrap();
    (rest.to_vec(), map)
}

#[test]
fn subject_of_a_minimal_message() {
    let (rest, map) = parse(b"Subject: hi\r\n\r\nhello");
    assert_eq!(rest, b"hello");
    assert_eq!(map.len(), 1);
    assert_eq!(map.get(&name("subject")), Some("hi"));
    let subject = map.get_typed::<Subject>().unwrap().unwrap();
    assert_eq!(subject.as_str(), "hi");
}

#[test]
fn folded_from_decodes_to_two_mailboxes() {
    let (rest, map) = parse(b"From: Alice\r\n <a@x>, Bob\r\n <b@y>\r\n\r\n");
    assert_eq!(rest, b"");
    assert_eq!(map.get(&name("From")), Some("Alice <a@x>, Bob <b@y>"));
    let from = map.get_typed::<From>().unwrap().unwrap();
    let list = from.mailboxes();
    assert_eq!(list.len(), 2);
    assert_eq!(list[0].display_name(), "Alice");
    assert_eq!(list[0].address(), "a@x");
    assert_eq!(list[1].display_name(), "Bob");
    assert_eq!(list[1].address(), "b@y");
}

#[test]
fn names_are_found_in_any_case() {
    let (_, map) = parse(b"X-Mailer: test\r\nSUBJECT: one\r\n\r\n");
    assert_eq!(map.get(&name("x-mailer")), Some("test"));
    assert_eq!(map.get(&name("X-MAILER")), Some("test"));
    assert_eq!(map.get(&name("Subject")), Some("one"));
    assert_eq!(map.get(&name("to")), None);
}

#[test]
fn a_repeated_name_keeps_its_spelling_and_takes_the_last_value() {
    let (_, map) = parse(b"Subject: one\r\nTo: a@x\r\nSUBJECT: two\r\n\r\n");
    let entries = map.iter();
    assert_eq!(entries.len(), 2);
    assert_eq!(entries[0].0.as_str(), "Subject");
    assert_eq!(entries[0].1, "two");
    assert_eq!(entries[1].0.as_str(), "To");
    assert_eq!(entries[1].1, "a@x");
}

#[test]
fn keys_are_ascii_and_distinct_without_regard_to_case() {
    let (_, map) = parse(b"A: 1\r\nb: 2\r\na: 3\r\nB: 4\r\nC: 5\r\n\r\n");
    let entries = map.iter();
    assert_eq!(entries.len(), 3);
    for (i, (key, _)) in entries.iter().enumerate() {
        assert!(key.as_bytes().is_ascii());
        for (other, _) in &entries[i + 1..] {
            assert!(!key.as_bytes().eq_ignore_ascii_case(other.as_bytes()));
            assert!(key != other);
        }
    }
}

#[test]
fn values_are_unfolded_and_trimmed() {
    let (_, map) = parse(b"X:   a  \t b\r\n\tc \r\n  d   \r\nY:\r\nZ: \r\n \r\n\r\n");
    assert_eq!(map.get(&name("x")), Some("a b c d"));
    assert_eq!(map.get(&name("y")), Some(""));
    assert_eq!(map.get(&name("z")), Some(""));
    for (_, value) in map.iter() {
        assert!(!value.contains("\r\n"));
        assert_eq!(value.trim_matches(|c: char| c.is_ascii() && c.is_whitespace()), value);
    }
}

#[test]
fn unstructured_gives_exact_values() {
    assert_eq!(unstructured(b" hi"), b"hi");
    assert_eq!(unstructured(b"a\r\n b"), b"a b");
    assert_eq!(unstructured(b"a \r\n \r\n b"), b"a b");
    assert_eq!(unstructured(b"a\rb\nc"), b"a b c");
    assert_eq!(unstructured(b"\x0b a\x01b \x0c"), b"a\x01b");
    assert_eq!(unstructured(b" \t "), b"");
    assert_eq!(unstructured(b""), b"");
}

#[test]
fn obsolete_values_with_controls_and_stray_cr_are_read() {
    let (rest, map) = parse(b"X-Old: a\x01b\rc\r\n\r\nbody");
    assert_eq!(rest, b"body");
    assert_eq!(map.get(&name("x-old")), Some("a\x01b c"));
}

#[test]
fn white_space_may_stand_before_the_colon() {
    let (_, map) = parse(b"Subject \t: hi\r\n\r\n");
    assert_eq!(map.get(&name("subject")), Some("hi"));
}

#[test]
fn an_empty_block_is_a_block() {
    let (rest, map) = parse(b"\r\nbody");
    assert_eq!(rest, b"body");
    assert_eq!(map.len(), 0);
}

#[test]
fn what_is_no_header_block_is_rejected() {
    assert!(HeaderMap::parse(b"").is_err());
    assert!(HeaderMap::parse(b"Subject: hi\r\n").is_err());
    assert!(HeaderMap::parse(b"Subject: hi\r\nbody").is_err());
    assert!(HeaderMap::parse(b"Subject hi\r\n\r\n").is_err());
    assert!(HeaderMap::parse(b": hi\r\n\r\n").is_err());
    assert!(HeaderMap::parse(b"Subject: hi\n\n").is_err());
    assert!(HeaderMap::parse(b"Subject: h\xc3\xa9\r\n\r\n").is_err());
    assert!(HeaderMap::parse(b" Subject: hi\r\n\r\n").is_err());
}

#[test]
fn insert_replaces_under_any_case() {
    let mut map = HeaderMap::new();
    map.insert(name("Subject"), "one".to_owned());
    map.insert(name("subject"), "two".to_owned());
    map.insert(name("To"), "a@x".to_owned());
    assert_eq!(map.len(), 2);
    assert_eq!(map.get(&name("SUBJECT")), Some("two"));
    assert_eq!(map.iter()[0].0.as_str(), "Subject");
}

#[test]
fn header_names_must_be_ascii() {
    assert!(HeaderName::from_str("Sub\u{e9}ct").is_err());
    assert!(HeaderName::from_bytes(b"X-\xff").is_err());
    assert!(HeaderName::from_bytes(b"X-Ok").is_ok());
    assert_eq!(HeaderName::from_static("from").as_bytes(), b"from");
    assert_eq!(HeaderName::from_static("from").into_owned().as_str(), "from");
}

#[test]
fn header_names_are_ordered_without_regard_to_case() {
    assert_eq!(name("abc").compare(&name("ABD")), Order::Less);
    assert_eq!(name("ABD").compare(&name("abc")), Order::Greater);
    assert_eq!(name("To").compare(&name("tO")), Order::Equal);
    assert_eq!(name("to").compare(&name("topic")), Order::Less);
    assert_eq!(name("topic").compare(&name("To")), Order::Greater);
    assert!(name("To") == name("TO"));
    assert!(name("To") != name("Cc"));
}

#[test]
fn ftext_is_printable_ascii_without_colon() {
    assert!(is_ftext(b'a'));
    assert!(is_ftext(b'-'));
    assert!(is_ftext(33));
    assert!(is_ftext(126));
    assert!(!is_ftext(b':'));
    assert!(!is_ftext(b' '));
    assert!(!is_ftext(127));
    assert!(!is_ftext(200));
}

#[test]
fn from_decodes_bare_and_named_mailboxes() {
    let from = From::decode("a@x.example").unwrap();
    assert_eq!(from.mailboxes().len(), 1);
    assert_eq!(from.mailboxes()[0].display_name(), "");
    assert_eq!(from.mailboxes()[0].address(), "a@x.example");

    let from = From::decode("\"Doe, John\" <john@example.org>  ").unwrap();
    assert_eq!(from.mailboxes()[0].display_name(), "Doe, John");
    assert_eq!(from.mailboxes()[0].address(), "john@example.org");

    let from = From::decode("<only@example.org>").unwrap();
    assert_eq!(from.mailboxes()[0].display_name(), "");
    assert_eq!(from.mailboxes()[0].address(), "only@example.org");
}

#[test]
fn words_of_a_display_name_are_joined() {
    let from = From::decode("John Q. Public (the one) <jqp@example.org>").unwrap();
    assert_eq!(from.mailboxes()[0].display_name(), "JohnQ.Public");
    assert_eq!(from.mailboxes()[0].address(), "jqp@example.org");
}

#[test]
fn comments_stay_in_the_address() {
    let sender = Sender::decode("a(local)@(domain)x.example").unwrap();
    assert_eq!(sender.mailbox().address(), "a(local)@(domain)x.example");
    let sender = Sender::decode("user@[192.0.2.1]").unwrap();
    assert_eq!(sender.mailbox().address(), "user@[192.0.2.1]");
    let sender = Sender::decode("<@a.example,@b.example:user@c.example>").unwrap();
    assert_eq!(sender.mailbox().address(), "user@c.example");
}

#[test]
fn obsolete_lists_may_hold_empty_items() {
    let from = From::decode(",, a@x ,, (none) , b@y,").unwrap();
    let list = from.mailboxes();
    assert_eq!(list.len(), 2);
    assert_eq!(list[0].address(), "a@x");
    assert_eq!(list[1].address(), "b@y");
}

#[test]
fn sender_is_a_single_mailbox() {
    let sender = Sender::decode("Alice <a@x>").unwrap();
    assert_eq!(sender.mailbox().display_name(), "Alice");
    assert_eq!(sender.mailbox().address(), "a@x");
    assert!(Sender::decode("a@x, b@y").is_err());
    assert!(Sender::decode("Team: a@x;").is_err());
}

#[test]
fn to_decodes_mailboxes_and_groups() {
    let to = To::decode("a@x, Team: b@y, Carol <c@z>;, Nobody:;").unwrap();
    let list = to.addresses();
    assert_eq!(list.len(), 3);
    match &list[0] {
        Address::Mailbox(m) => assert_eq!(m.address(), "a@x"),
        Address::Group(_) => panic!("a mailbox was expected"),
    }
    match &list[1] {
        Address::Group(g) => {
            assert_eq!(g.display_name(), "Team");
            assert_eq!(g.mailboxes().len(), 2);
            assert_eq!(g.mailboxes()[0].address(), "b@y");
            assert_eq!(g.mailboxes()[1].display_name(), "Carol");
            assert_eq!(g.mailboxes()[1].address(), "c@z");
        }
        Address::Mailbox(_) => panic!("a group was expected"),
    }
    match &list[2] {
        Address::Group(g) => {
            assert_eq!(g.display_name(), "Nobody");
            assert_eq!(g.mailboxes().len(), 0);
        }
        Address::Mailbox(_) => panic!("a group was expected"),
    }
}

#[test]
fn values_that_are_no_addresses_are_rejected() {
    assert!(From::decode("").is_err());
    assert!(From::decode("no address here").is_err());
    assert!(From::decode("a@").is_err());
    assert!(From::decode("<a@x").is_err());
    assert!(From::decode("a@x b@y").is_err());
    assert!(From::decode("\u{e9}@x").is_err());
    assert!(To::decode("Team: a@x").is_err());
    assert_eq!(From::decode("").unwrap_err().message(), "invalid from header");
    assert_eq!(Sender::decode("").unwrap_err().message(), "invalid sender header");
    assert_eq!(To::decode("").unwrap_err().message(), "invalid to header");
}

#[test]
fn headers_that_are_missing_do_not_decode() {
    let (_, map) = parse(b"Subject: hi\r\nFrom: not an address\r\n\r\n");
    assert_eq!(map.get_typed::<To>(), Ok(None));
    assert_eq!(map.get_typed::<Sender>(), Ok(None));
    assert!(map.get_typed::<From>().is_err());
    assert_eq!(From::name().as_str(), "from");
    assert_eq!(To::name().as_str(), "to");
    assert_eq!(Sender::name().as_str(), "sender");
    assert_eq!(Subject::name().as_str(), "subject");
}

#[test]
fn quoted_strings_keep_their_spaces() {
    let from = From::decode("\" a  b \" <a@x>").unwrap();
    assert_eq!(from.mailboxes()[0].display_name(), "a b");
    let from = From::decode("\"a\\\"b\" <a@x>").unwrap();
    assert_eq!(from.mailboxes()[0].display_name(), "a\"b");
}

#[test]
fn lookup_by_bytes_needs_no_name() {
    let (_, map) = parse(b"Message-ID: <1@x>\r\n\r\n");
    assert_eq!(map.get_bytes(b"message-id"), Some("<1@x>"));
    assert_eq!(map.get_bytes(b"MESSAGE-ID"), Some("<1@x>"));
    assert_eq!(map.get_bytes(b"message_id"), None);
    assert_eq!(map.get_bytes(b"\xff"), None);
}
