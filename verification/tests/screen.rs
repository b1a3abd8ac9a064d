use std::collections::HashSet;

use sst::app::App;
use sst::chat::{ChatState, Mode};
use sst::content::{Content, ContentBody, DataMessage, Quote};
use sst::cursor::{cursor_down, cursor_left, cursor_line_col, cursor_right, cursor_up, line_byte_start};
use sst::ids::{GroupKey, ServiceId, Thread, Uuid};
use sst::input::{insert_text, rub_out};
use sst::layout::{layout_messages, message_lines, receipt_indicator, Line, Style, Times};
use sst::reactions::ReactionMap;
use sst::roster::{SenderNames, ThreadEntry};
use sst::scroll::scroll_to_selection;
use sst::ui::{
    chat_header, chat_status_bar, contact_list, draw_input, input_rows, status_with_time,
    thread_list,
};
use sst::wrap::{center, truncate, word_wrap};

const OWN: Uuid = Uuid { value: 1 };
const ALICE: Uuid = Uuid { value: 2 };
const BOB: Uuid = Uuid { value: 3 };
const HOUR: u64 = 3_600_000;

fn with_alice() -> Thread {
    Thread::Contact(ServiceId::Aci(ALICE))
}

fn text(sender: Uuid, timestamp: u64, body: &str) -> Content {
    Content {
        sender,
        timestamp,
        thread: Some(with_alice()),
        body: ContentBody::DataMessage(DataMessage {
            body: Some(body.to_string()),
            timestamp: None,
            attachments: Vec::new(),
            sticker: false,
            reaction: None,
            quote: None,
            delete: None,
            group_v2: None,
        }),
    }
}

fn chat_of(thread: Thread, messages: Vec<Content>) -> ChatState {
    let mut app = App::new(Vec::new(), Some(OWN), String::new());
    app.open_chat(
        thread,
        "Alice Wagner".to_string(),
        messages,
        HashSet::from([10, 20]),
        HashSet::from([20]),
        ReactionMap::new(),
        SenderNames::new(),
    );
    match app.chat {
        Some(c) => c,
        None => panic!("no chat"),
    }
}

fn times(n: usize) -> Vec<Times> {
    let mut v = Vec::new();
    for i in 0..n {
        v.push(Times { short: format!("09:0{}", i), long: format!("2026-06-28 09:0{}", i) });
    }
    v
}

fn plain(line: &Line) -> String {
    line.spans.iter().map(|s| s.text.clone()).collect()
}

fn shown(lines: &Vec<Line>) -> Vec<String> {
    lines.iter().map(plain).collect()
}

fn entry(name: &str, preview: Option<&str>, unread: bool) -> ThreadEntry {
    ThreadEntry {
        thread: with_alice(),
        name: name.to_string(),
        last_preview: preview.map(|s| s.to_string()),
        last_ts: 1,
        unread,
    }
}

// ── Fitting ──────────────────────────────────────────────────────────────────

#[test]
fn words_are_wrapped() {
    assert_eq!(word_wrap("one two three", 7), vec!["one two", "three"]);
    assert_eq!(word_wrap("short", 7), vec!["short"]);
    assert_eq!(word_wrap("", 7), vec![""]);
    assert_eq!(word_wrap("a verylongword b", 5), vec!["a", "verylongword", "b"]);
    assert_eq!(word_wrap("a\nb c", 1), vec!["a", "b", "c"]);
    assert_eq!(word_wrap("a b", 0), vec!["a b"]);
    assert_eq!(word_wrap("      ", 3), vec![""]);
    assert_eq!(word_wrap("  keep  spaces", 20), vec!["  keep  spaces"]);
}

#[test]
fn texts_are_cut() {
    assert_eq!(truncate("hello", 5), "hello");
    assert_eq!(truncate("hello", 4), "hel…");
    assert_eq!(truncate("hello", 1), "…");
    assert_eq!(truncate("hello", 0), "…");
}

#[test]
fn texts_are_centered_as_std_does() {
    for width in 0..20usize {
        assert_eq!(center(" groups ", width, '─'), format!("{:─^width$}", " groups ", width = width));
        assert_eq!(center("ab", width, ' '), format!("{:^width$}", "ab", width = width));
    }
}

// ── Lists ────────────────────────────────────────────────────────────────────

#[test]
fn chat_list_lines() {
    let threads = vec![
        entry("Alice Wagner", Some("Hey, are you\nfree tonight?"), true),
        entry("Bob", Some(""), false),
        entry("Carol", None, false),
    ];
    assert_eq!(
        thread_list(&threads, 60),
        vec!["* Alice Wagner: Hey, are you free tonight?", "  Bob", "  Carol"]
    );
    assert_eq!(thread_list(&threads, 10)[0], "* Alice W…");
    assert_eq!(thread_list(&Vec::new(), 10), vec!["(no chats)"]);
}

#[test]
fn contact_browser_lines() {
    let entries = vec![entry("Alice", None, false), entry("Family Group", None, false)];
    let lines = contact_list(&entries, 1, 12);
    assert_eq!(lines.len(), 3);
    assert_eq!(lines[0].text, "Alice");
    assert_eq!(lines[1].text, "── groups ──");
    assert!(lines[1].separator);
    assert_eq!(lines[2].text, "Family Group");
    assert_eq!(contact_list(&entries, 2, 8).len(), 2);
    assert_eq!(contact_list(&entries, 0, 8)[1].text, "Family …");
    assert!(contact_list(&Vec::new(), 0, 8).is_empty());
}

// ── Messages ─────────────────────────────────────────────────────────────────

#[test]
fn messages_stand_in_sender_blocks() {
    let chat = chat_of(
        with_alice(),
        vec![
            text(ALICE, 5, "Hey, are you free tonight?"),
            text(ALICE, 6, "Dinner?"),
            text(OWN, 20, "Sure"),
            text(OWN, 21 + HOUR, "Later"),
        ],
    );
    let l = layout_messages(&chat, Some(OWN), &times(4), 24);
    assert_eq!(
        shown(&l.lines),
        vec![
            "Alice Wagner  09:00",
            "  Hey, are you free",
            "  tonight?",
            "  Dinner?",
            "",
            "You  09:02",
            "  Sure  ✓✓",
            "",
            " ── 2026-06-28 09:03 ── ",
            "",
            "You  09:03",
            "  Later",
        ]
    );
    assert_eq!(l.starts, vec![0, 3, 4, 7]);
    assert_eq!(l.ends, vec![2, 3, 6, 11]);
    assert_eq!(l.lines[0].spans[0].style, Style::Other);
    assert_eq!(l.lines[5].spans[0].style, Style::Own);
    assert_eq!(l.lines[5].spans[1].style, Style::Dim);
}

#[test]
fn an_hour_is_no_gap() {
    let chat = chat_of(with_alice(), vec![text(ALICE, 5, "a"), text(ALICE, 5 + HOUR, "b"), text(ALICE, 1, "c")]);
    let l = layout_messages(&chat, Some(OWN), &times(3), 24);
    assert_eq!(shown(&l.lines), vec!["Alice Wagner  09:00", "  a", "  b", "  c"]);
}

#[test]
fn quotes_reactions_and_selection_are_drawn() {
    let mut reply = text(ALICE, 30, "Perfect");
    if let ContentBody::DataMessage(m) = &mut reply.body {
        m.quote = Some(Quote {
            id: Some(20),
            author_aci: None,
            author_aci_binary: Some(OWN.to_bytes()),
            text: Some("Sure, sounds good!\nreally".to_string()),
        });
    }
    let mut empty = text(ALICE, 31, "x");
    if let ContentBody::DataMessage(m) = &mut empty.body {
        m.quote = Some(Quote {
            id: Some(20),
            author_aci: None,
            author_aci_binary: Some(ALICE.to_bytes()),
            text: None,
        });
    }
    let mut chat = chat_of(with_alice(), vec![reply, empty]);
    chat.reactions.set(30, "❤️", OWN, true);
    chat.reactions.set(30, "❤️", ALICE, true);
    chat.selected_message = Some(0);
    let l = layout_messages(&chat, Some(OWN), &times(2), 40);
    assert_eq!(
        shown(&l.lines),
        vec![
            "Alice Wagner  09:00",
            "  > You:",
            "  > Sure, sounds good!",
            "  Perfect",
            "  [2x❤️]",
            "  > Alice Wagner:",
            "  > …",
            "  x",
        ]
    );
    let marked: Vec<bool> = l.lines.iter().map(|x| x.highlighted).collect();
    assert_eq!(marked, vec![true, true, true, true, true, false, false, false]);
}

#[test]
fn group_members_are_named() {
    let group = Thread::Group(GroupKey { high: 1, low: 2 });
    let mut chat = chat_of(group, vec![text(ALICE, 5, "a"), text(BOB, 6, "b")]);
    chat.sender_names.insert(ALICE, "Alice".to_string());
    let l = layout_messages(&chat, Some(OWN), &times(2), 40);
    assert_eq!(
        shown(&l.lines),
        vec!["Alice  09:00", "  a", "", "00000000-0000-0000-0000-000000000003  09:01", "  b"]
    );
}

#[test]
fn members_of_one_name_have_headers_of_their_own() {
    let group = Thread::Group(GroupKey { high: 1, low: 2 });
    let mut chat =
        chat_of(group, vec![text(ALICE, 5, "a"), text(BOB, 6, "b"), text(BOB, 7, "c")]);
    chat.sender_names.insert(ALICE, "Sam".to_string());
    chat.sender_names.insert(BOB, "Sam".to_string());
    let l = layout_messages(&chat, Some(OWN), &times(3), 40);
    assert_eq!(shown(&l.lines), vec!["Sam  09:00", "  a", "", "Sam  09:01", "  b", "  c"]);
}

#[test]
fn wrapped_lines_stay() {
    let text = "one two  three\n\nincomprehensible words \n a b";
    for width in 1..20 {
        let lines = word_wrap(text, width);
        assert_eq!(word_wrap(&lines.join("\n"), width), lines);
        let before: Vec<&str> = text.split_whitespace().collect();
        let joined = lines.join("\n");
        assert_eq!(joined.split_whitespace().collect::<Vec<&str>>(), before);
    }
}

#[test]
fn narrow_areas_are_not_wrapped() {
    let chat = chat_of(with_alice(), vec![text(ALICE, 5, "a b\nc")]);
    let l = layout_messages(&chat, Some(OWN), &times(1), 2);
    assert_eq!(shown(&l.lines), vec!["Alice Wagner  09:00", "  a b", "  c"]);
}

#[test]
fn receipts_are_marked() {
    let read = HashSet::from([2]);
    let delivered = HashSet::from([1, 2]);
    assert_eq!(receipt_indicator(&read, &delivered, 2), "  ✓✓");
    assert_eq!(receipt_indicator(&read, &delivered, 1), "  ✓");
    assert_eq!(receipt_indicator(&read, &delivered, 3), "");
}

#[test]
fn times_stand_in_the_header() {
    let chat = chat_of(with_alice(), vec![text(ALICE, 1_751_352_840_000, "a")]);
    let l = message_lines(&chat, Some(OWN), 40);
    let header = plain(&l.lines[0]);
    assert_eq!(header.chars().count(), "Alice Wagner  09:14".chars().count());
    assert!(header.starts_with("Alice Wagner  "));
    assert!(header.ends_with(":54"));
}

// ── Scrolling ────────────────────────────────────────────────────────────────

#[test]
fn the_selection_is_brought_into_view() {
    assert_eq!(scroll_to_selection(99, None, 50, 10), 40);
    assert_eq!(scroll_to_selection(3, None, 5, 10), 0);
    assert_eq!(scroll_to_selection(0, Some((5, 6)), 50, 10), 36);
    assert_eq!(scroll_to_selection(40, Some((45, 46)), 50, 10), 2);
    assert_eq!(scroll_to_selection(10, Some((33, 34)), 50, 10), 10);
    assert_eq!(scroll_to_selection(0, Some((0, 1)), 50, 10), 40);
    assert_eq!(scroll_to_selection(40, Some((49, 49)), 50, 10), 0);
}

#[test]
fn drawing_notes_the_view() {
    let mut messages = Vec::new();
    for i in 0..30u64 {
        messages.push(text(ALICE, i, "x"));
    }
    let mut chat = chat_of(with_alice(), messages);
    match chat.draw_messages(Some(OWN), 40, 10) {
        Some((layout, row)) => {
            assert_eq!(layout.lines.len(), 31);
            assert_eq!(row, 21);
        }
        None => panic!("not drawn"),
    }
    assert_eq!(chat.viewport_height, 10);
    assert_eq!(chat.viewport_top_msg, 20);
    chat.selected_message = Some(0);
    match chat.draw_messages(Some(OWN), 40, 10) {
        Some((_, row)) => assert_eq!(row, 0),
        None => panic!("not drawn"),
    }
    assert_eq!(chat.viewport_top_msg, 0);
    let mut none = chat_of(with_alice(), Vec::new());
    assert!(none.draw_messages(Some(OWN), 40, 10).is_none());
    assert_eq!(none.viewport_height, 10);
}

// ── The input and the status bar ─────────────────────────────────────────────

#[test]
fn the_input_area_shows_mode_or_cursor() {
    let mut chat = chat_of(with_alice(), Vec::new());
    assert_eq!(shown(&draw_input(&chat)), vec!["  -- NORMAL --"]);
    chat.mode = Mode::Insert;
    chat.input = "ab\ncd".to_string();
    chat.cursor = 1;
    let lines = draw_input(&chat);
    assert_eq!(shown(&lines), vec!["> ab", "  cd"]);
    assert_eq!(lines[0].spans[2].text, "b");
    assert_eq!(lines[0].spans[2].style, Style::Cursor);
    assert_eq!(lines[0].spans.len(), 3);
    chat.cursor = 0;
    assert_eq!(draw_input(&chat)[0].spans[3].text, "b");
    chat.cursor = 5;
    assert_eq!(shown(&draw_input(&chat)), vec!["> ab", "  cd "]);
    chat.input = "x\n".to_string();
    chat.cursor = 2;
    assert_eq!(shown(&draw_input(&chat)), vec!["> x", "   "]);
    assert_eq!(input_rows("x\n"), 2);
    assert_eq!(input_rows(""), 1);
}

#[test]
fn the_status_bar_shows_hint_selection_or_keys() {
    let mut chat = chat_of(with_alice(), vec![text(ALICE, 5, "a"), text(OWN, 6, "b")]);
    assert_eq!(
        chat_status_bar(&chat, Some(OWN)),
        "  j/k navigate   r reply   e edit   d delete   : command   q/← back"
    );
    chat.selected_message = Some(0);
    assert_eq!(
        status_with_time(&chat, Some(OWN), "2026-06-28 09:14"),
        "  [1/2]  Alice Wagner  ·  2026-06-28 09:14  |  r reply   e edit   d delete   : command   Esc deselect   q back"
    );
    chat.selected_message = Some(1);
    assert!(status_with_time(&chat, Some(OWN), "t").starts_with("  [2/2]  You  ·  t  |"));
    assert!(chat_status_bar(&chat, Some(OWN)).contains("  ·  1970-01-01 0"));
    chat.set_hint("h");
    assert_eq!(chat_status_bar(&chat, Some(OWN)), "  Tab:  h");
    assert_eq!(chat_header("Alice"), " Alice");
}

// ── The cursor ───────────────────────────────────────────────────────────────

#[test]
fn the_cursor_moves_over_whole_characters() {
    let s = "aß\n€x";
    assert_eq!(cursor_left(s, 0), 0);
    assert_eq!(cursor_left(s, 3), 1);
    assert_eq!(cursor_right(s, 1), 3);
    assert_eq!(cursor_right(s, 8), 8);
    assert_eq!(cursor_right(s, 99), 8);
    assert_eq!(cursor_line_col(s, 7), (1, 1));
    assert_eq!(line_byte_start(s, 1), 4);
    assert_eq!(cursor_up(s, 8), 3);
    assert_eq!(cursor_up(s, 1), 1);
    assert_eq!(cursor_down(s, 1), 7);
    assert_eq!(cursor_down(s, 7), 7);
    assert_eq!(cursor_down(s, cursor_up(s, 7)), 7);
    for line in 0..2 {
        assert_eq!(cursor_line_col(s, line_byte_start(s, line)), (line, 0));
    }
}

#[test]
fn a_cursor_past_the_end_is_on_the_last_line() {
    let s = "aß\n€x";
    assert_eq!(cursor_up(s, 99), 3);
    assert_eq!(cursor_down(s, 99), 99);
    assert_eq!(cursor_up("ab", 7), 7);
}

#[test]
fn wrapping_takes_the_fewest_lines() {
    assert_eq!(word_wrap("aaa bb cc ddddd", 6).len(), 3);
    assert_eq!(word_wrap("a b c d\ne f g h", 3).len(), 4);
    assert_eq!(word_wrap("        ", 3), vec![""]);
}

#[test]
fn the_text_changes_at_the_cursor() {
    assert_eq!(insert_text("aß", 1, "xy"), ("axyß".to_string(), 3));
    assert_eq!(rub_out("aß", 3), ("a".to_string(), 1));
    assert_eq!(rub_out("aß", 0), ("aß".to_string(), 0));
    let (s, b) = insert_text("aß", 3, "€");
    assert_eq!(rub_out(&s, b), ("aß".to_string(), 3));
}
