use sst::cli::{
    chat_line, check_sendable, confirmed, contact_line, database_files, format_json, format_one,
    format_text, last_start, needs_lock, owner_line, print_messages, stdin_text, Cmd, Format,
    Watch,
};
use sst::content::{Content, ContentBody, DataMessage};
use sst::ids::{GroupKey, ServiceId, Thread, Uuid};
use sst::json::json_string;
use sst::roster::{Contact, SenderNames, ThreadEntry};
use sst::times::{
    fmt_ts_long, fmt_ts_short, fmt_ts_utc, label_at, utc_or_number, TimePattern, LAST_SECOND,
};

const OWN: Uuid = Uuid { value: 1 };
const ALICE: Uuid = Uuid { value: 2 };
const ALICE_TEXT: &str = "00000000-0000-0000-0000-000000000002";

fn with_alice() -> Thread {
    Thread::Contact(ServiceId::Aci(ALICE))
}

fn text(sender: Uuid, timestamp: u64, body: &str) -> Content {
    Content {
        sender,
        timestamp,
        thread: Some(with_alice()),
        body: ContentBody::DataMessage(DataMessage {
            body: Some(body.to_string()),
            timestamp: None,
            attachments: Vec::new(),
            sticker: false,
            reaction: None,
            quote: None,
            delete: None,
            group_v2: None,
        }),
    }
}

fn entry(thread: Thread, name: &str, preview: Option<&str>) -> ThreadEntry {
    ThreadEntry {
        thread,
        name: name.to_string(),
        last_preview: preview.map(|s| s.to_string()),
        last_ts: 77,
        unread: false,
    }
}

#[test]
fn strings_are_written_as_json() {
    for s in ["", "plain", "quote \" backslash \\ slash /", "\n\r\t\u{8}\u{c}\u{0}\u{1f}\u{7f}", "é€😀\u{2028}"] {
        let value = serde_json::Value::String(s.to_string());
        assert_eq!(json_string(s), value.to_string());
    }
    assert_eq!(json_string("a\u{1f}\"\n"), "\"a\\u001f\\\"\\n\"");
}

#[test]
fn messages_are_printed() {
    assert_eq!(format_text("2026-07-01 09:14", "Alice Wagner", "Hey!"), "[2026-07-01 09:14] Alice Wagner: Hey!");
    assert_eq!(
        format_json("2026-07-01T09:14:00Z", ALICE, "Alice Wagner", "Hey!\n"),
        format!(
            "{{\"timestamp\":\"2026-07-01T09:14:00Z\",\"sender_uuid\":\"{}\",\"sender_name\":\"Alice Wagner\",\"body\":\"Hey!\\n\"}}",
            ALICE_TEXT
        )
    );
    let line = format_one(Format::Json, 1_782_897_240_999, ALICE, "A", "b");
    assert!(line.starts_with("{\"timestamp\":\"2026-07-01T09:14:00Z\","));
    let line = format_one(Format::Text, 1_782_897_240_999, ALICE, "A", "b");
    assert_eq!(line, format!("[{}] A: b", fmt_ts_long(1_782_897_240_999)));
    assert_eq!(Format::Text.text(), "text");
    assert_eq!(Format::Json.text(), "json");
}

#[test]
fn times_agree_with_chrono() {
    let ts: u64 = 1_782_897_240_123;
    match chrono::DateTime::from_timestamp(1_782_897_240, 0) {
        Some(t) => {
            let local = t.with_timezone(&chrono::Local);
            assert_eq!(fmt_ts_short(ts), local.format("%H:%M").to_string());
            assert_eq!(fmt_ts_long(ts), local.format("%Y-%m-%d %H:%M").to_string());
        }
        None => panic!("no time"),
    }
    assert_eq!(fmt_ts_utc(ts), "2026-07-01T09:14:00Z");
    assert_eq!(fmt_ts_utc(0), "1970-01-01T00:00:00Z");
}

#[test]
fn labels_follow_the_offset() {
    let ts = 1_782_897_240_999;
    assert_eq!(label_at(ts, Some(0), TimePattern::Short), "09:14");
    assert_eq!(label_at(ts, Some(7_200), TimePattern::Long), "2026-07-01 11:14");
    assert_eq!(label_at(ts, Some(-36_000), TimePattern::Long), "2026-06-30 23:14");
    assert_eq!(label_at(0, Some(-1), TimePattern::Long), "1969-12-31 23:59");
    assert_eq!(label_at(951_782_400_000, Some(0), TimePattern::Long), "2000-02-29 00:00");
    assert_eq!(label_at(4_107_542_400_000, Some(0), TimePattern::Long), "2100-03-01 00:00");
    assert_eq!(label_at(253_402_300_800_000, Some(0), TimePattern::Long), "+10000-01-01 00:00");
    let last = LAST_SECOND as u64 * 1000;
    assert_eq!(label_at(last, Some(0), TimePattern::Long), "+262142-12-31 23:59");
    assert_eq!(label_at(last, Some(86_399), TimePattern::Long), "+262143-01-01 23:59");
    assert_eq!(label_at(last, Some(-86_399), TimePattern::Short), "00:00");
    assert_eq!(label_at(ts, None, TimePattern::Short), "");
    assert_eq!(fmt_ts_utc(253_402_300_800_000), "+10000-01-01T00:00:00Z");
}

#[test]
fn times_beyond_the_calendar() {
    let last: u64 = 8_210_266_876_799_999;
    assert!(fmt_ts_short(last).contains(':'));
    assert!(fmt_ts_long(last).contains(' '));
    assert!(fmt_ts_utc(last).ends_with('Z'));
    assert_eq!(fmt_ts_short(last + 1), "");
    assert_eq!(fmt_ts_long(u64::MAX), "");
    assert_eq!(fmt_ts_utc(last + 1), "8210266876800000");
    assert_eq!(utc_or_number(5, None), "5");
    assert_eq!(utc_or_number(5, Some("x".to_string())), "x");
}

#[test]
fn history_is_printed_with_names() {
    let messages = vec![text(ALICE, 1, "a"), text(OWN, 2, "b"), text(Uuid { value: 9 }, 3, "c")];
    let mut names = SenderNames::new();
    names.insert(ALICE, "Alice".to_string());
    let lines = print_messages(&messages, 0, &names, Some(OWN), Format::Text);
    assert_eq!(lines.len(), 3);
    assert!(lines[0].ends_with("] Alice: a"));
    assert!(lines[1].ends_with("] You: b"));
    assert!(lines[2].ends_with("] 00000000-0000-0000-0000-000000000009: c"));
    let last = print_messages(&messages, last_start(3, 1), &names, Some(OWN), Format::Json);
    assert_eq!(last.len(), 1);
    names.insert(OWN, "Otto".to_string());
    let json = print_messages(&messages, 0, &names, Some(OWN), Format::Json);
    assert!(json[0].contains("\"sender_name\":\"Alice\""));
    assert!(json[1].contains("\"sender_name\":\"Otto\""));
    let lines = print_messages(&messages, 0, &names, Some(OWN), Format::Text);
    assert!(lines[1].ends_with("] You: b"));
    assert_eq!(last_start(3, 10), 0);
    assert_eq!(last_start(3, 0), 3);
}

#[test]
fn chats_are_printed() {
    let e = entry(with_alice(), "Alice", Some("hi"));
    assert_eq!(chat_line(&e, Format::Text), "Alice: hi");
    assert_eq!(
        chat_line(&e, Format::Json),
        format!("{{\"id\":\"{}\",\"name\":\"Alice\",\"preview\":\"hi\",\"last_ts\":77}}", ALICE_TEXT)
    );
    let bare = entry(with_alice(), "Alice", None);
    assert_eq!(chat_line(&bare, Format::Text), "Alice");
    assert_eq!(
        chat_line(&bare, Format::Json),
        format!("{{\"id\":\"{}\",\"name\":\"Alice\",\"preview\":null,\"last_ts\":77}}", ALICE_TEXT)
    );
    assert_eq!(chat_line(&entry(with_alice(), "A", Some("")), Format::Text), "A");
}

#[test]
fn contacts_are_printed() {
    let mut resolved = SenderNames::new();
    let e = entry(with_alice(), ALICE_TEXT, None);
    assert_eq!(contact_line(&e, &resolved, Format::Text), format!("{} {}", ALICE_TEXT, ALICE_TEXT));
    resolved.insert(ALICE, "Alice".to_string());
    assert_eq!(contact_line(&e, &resolved, Format::Text), format!("{} Alice", ALICE_TEXT));
    assert_eq!(
        contact_line(&e, &resolved, Format::Json),
        format!("{{\"id\":\"{}\",\"name\":\"Alice\",\"type\":\"contact\"}}", ALICE_TEXT)
    );
    let g = entry(Thread::Group(GroupKey { high: 0, low: 255 }), "Family", None);
    let id = format!("{}ff", "0".repeat(62));
    assert_eq!(contact_line(&g, &resolved, Format::Text), format!("{} Family", id));
    assert_eq!(
        contact_line(&g, &resolved, Format::Json),
        format!("{{\"id\":\"{}\",\"name\":\"Family\",\"type\":\"group\"}}", id)
    );
    let contacts = vec![Contact { uuid: OWN, name: "Me".to_string(), phone_number: None }];
    assert_eq!(
        owner_line(&contacts, Some(OWN), Format::Text),
        Some("00000000-0000-0000-0000-000000000001 Note to Self".to_string())
    );
    assert_eq!(owner_line(&contacts, Some(ALICE), Format::Text), None);
    assert_eq!(owner_line(&contacts, None, Format::Text), None);
}

#[test]
fn a_repeated_message_is_shown_once() {
    let mut w = Watch::new(with_alice(), 100_000);
    assert_eq!(w.observe(&text(ALICE, 99_999, "early")), None);
    assert_eq!(w.observe(&text(ALICE, 100_000, "a")), Some("a".to_string()));
    assert_eq!(w.observe(&text(ALICE, 100_000, "a")), None);
    assert_eq!(w.observe(&text(ALICE, 160_000, "b")), Some("b".to_string()));
    assert_eq!(w.observe(&text(ALICE, 100_000, "a")), None);
    assert_eq!(w.observe(&text(ALICE, 160_001, "c")), Some("c".to_string()));
    assert_eq!(w.observe(&text(ALICE, 100_000, "a")), Some("a".to_string()));
    assert_eq!(w.observe(&text(ALICE, 170_000, "")), None);
    let mut other = text(ALICE, 170_000, "x");
    other.thread = None;
    assert_eq!(w.observe(&other), None);
}

#[test]
fn what_is_sent() {
    assert_eq!(stdin_text("Hello!\r\n\n"), "Hello!");
    assert_eq!(stdin_text("a\nb "), "a\nb ");
    assert_eq!(stdin_text("\n"), "");
    assert!(check_sendable("x", 0).is_ok());
    assert!(check_sendable("", 1).is_ok());
    assert_eq!(
        check_sendable("", 0),
        Err("nothing to send (no text and no attachments)".to_string())
    );
}

#[test]
fn linking_asks_first() {
    assert!(confirmed("y\n"));
    assert!(confirmed(" Y "));
    assert!(!confirmed("yes"));
    assert!(!confirmed(""));
    assert_eq!(database_files("db"), vec!["db", "db-wal", "db-shm"]);
}

#[test]
fn locks_are_needed_for_lasting_sessions() {
    assert!(needs_lock(&None));
    assert!(needs_lock(&Some(Cmd::Link)));
    assert!(needs_lock(&Some(Cmd::Chats { format: Format::Text })));
    assert!(needs_lock(&Some(Cmd::Contacts { format: Format::Text })));
    assert!(needs_lock(&Some(Cmd::Watch { format: Format::Text, recipient: String::new() })));
    assert!(!needs_lock(&Some(Cmd::Print { format: Format::Text, recipient: String::new() })));
    assert!(!needs_lock(&Some(Cmd::PrintLast {
        count: 1,
        format: Format::Text,
        recipient: String::new(),
    })));
    assert!(!needs_lock(&Some(Cmd::Send {
        recipient: String::new(),
        text: None,
        attach: Vec::new(),
    })));
}
