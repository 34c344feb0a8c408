use mercury::header::known::{known_header, known_headers, KNOWN_HEADER_COUNT};
use mercury::header::map::HeaderMap;
use mercury::header::name::HeaderName;
use mercury::header::summary::{summarize, SummaryError};
use mercury::storage::{index_mail, known_headers_of, mail_file_name, MailId, StorageEvent};

fn name(s: &str) -> HeaderName {
    HeaderName::from_str(s).unwrap()
}

#[test]
fn body_file_is_named_by_the_id() {
    assert_eq!(mail_file_name(MailId::new(1)), "1.mail.gz");
    assert_eq!(mail_file_name(MailId::new(0)), "0.mail.gz");
    assert_eq!(mail_file_name(MailId::new(42)), "42.mail.gz");
    assert_eq!(mail_file_name(MailId::new(1000)), "1000.mail.gz");
    assert_eq!(mail_file_name(MailId::new(-7)), "-7.mail.gz");
    assert_eq!(
        mail_file_name(MailId::new(i64::MAX)),
        "9223372036854775807.mail.gz"
    );
    assert_eq!(
        mail_file_name(MailId::new(i64::MIN)),
        "-9223372036854775808.mail.gz"
    );
    assert_eq!(MailId::new(17).value(), 17);
    assert_eq!(StorageEvent::NewMail(MailId::new(3)), StorageEvent::NewMail(MailId::new(3)));
}

#[test]
fn known_headers_are_the_indexed_ones() {
    let names = known_headers();
    assert_eq!(names.len(), KNOWN_HEADER_COUNT);
    let spelled: Vec<&str> = names.iter().map(|n| n.as_str()).collect();
    assert_eq!(
        spelled,
        vec![
            "trace",
            "resent-date",
            "resent-from",
            "resent-sender",
            "resent-to",
            "resent-cc",
            "resent-bcc",
            "resent-msg-id",
            "orig-date",
            "from",
            "sender",
            "reply-to",
            "to",
            "cc",
            "bcc",
            "message-id",
            "in-reply-to",
            "references",
            "subject",
            "comments",
            "keywords",
        ]
    );
    assert_eq!(known_header(18).as_str(), "subject");
}

#[test]
fn only_known_headers_are_indexed() {
    let known = index_mail(
        b"Subject: hi\r\nX-Mailer: test\r\nFROM: a@x\r\nTo: b@y\r\nReceived: by z\r\n\r\nbody",
    )
    .unwrap();
    let entries = known.iter();
    let listed: Vec<(&str, &str)> = entries
        .iter()
        .map(|(n, v)| (n.as_str(), v.as_str()))
        .collect();
    assert_eq!(listed, vec![("from", "a@x"), ("to", "b@y"), ("subject", "hi")]);
    assert_eq!(known.get(&name("x-mailer")), None);
}

#[test]
fn a_message_without_header_block_is_not_indexed() {
    assert!(index_mail(b"no headers here").is_err());
    assert!(index_mail(b"").is_err());
    assert_eq!(index_mail(b"\r\nbody").unwrap().len(), 0);
}

#[test]
fn known_headers_of_an_empty_map_are_none() {
    assert_eq!(known_headers_of(&HeaderMap::new()).len(), 0);
}

#[test]
fn summary_decodes_the_four_headers() {
    let (_, map) = HeaderMap::parse(
        b"From: Alice <a@x>\r\nTo: b@y, c@z\r\nSubject: hello there\r\n\r\n",
    )
    .unwrap();
    let summary = summarize(&map).unwrap();
    assert_eq!(summary.from.unwrap().mailboxes()[0].display_name(), "Alice");
    assert!(summary.sender.is_none());
    assert_eq!(summary.to.unwrap().addresses().len(), 2);
    assert_eq!(summary.subject.unwrap().as_str(), "hello there");
}

#[test]
fn summary_names_the_first_header_that_does_not_decode() {
    let (_, map) = HeaderMap::parse(b"From: nobody\r\nTo: nobody\r\n\r\n").unwrap();
    assert_eq!(summarize(&map).unwrap_err(), SummaryError::From);
    assert_eq!(summarize(&map).unwrap_err().message(), "invalid from header");
    let (_, map) = HeaderMap::parse(b"From: a@x\r\nSender: <\r\nTo: nobody\r\n\r\n").unwrap();
    assert_eq!(summarize(&map).unwrap_err(), SummaryError::Sender);
    let (_, map) = HeaderMap::parse(b"From: a@x\r\nTo: nobody\r\n\r\n").unwrap();
    assert_eq!(summarize(&map).unwrap_err(), SummaryError::To);
    assert_eq!(summarize(&map).unwrap_err().message(), "invalid to header");
}
