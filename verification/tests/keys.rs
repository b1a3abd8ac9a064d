use std::collections::HashSet;

use sst::app::{App, ListState};
use sst::chat::{AppCmd, ChatState, Mode};
use sst::complete::{completion_candidates, DirEntry};
use sst::content::{Content, ContentBody, DataMessage, Received};
use sst::ids::{GroupKey, ServiceId, Thread, Uuid};
use sst::keys::{KeyCode, KeyEvent, KeyEventKind};
use sst::reactions::ReactionMap;
use sst::roster::{SenderNames, ThreadEntry};
use sst::screen::View;

const OWN: Uuid = Uuid { value: 1 };
const ALICE: Uuid = Uuid { value: 2 };

fn with_alice() -> Thread {
    Thread::Contact(ServiceId::Aci(ALICE))
}

fn text(sender: Uuid, timestamp: u64, body: &str) -> Content {
    Content {
        sender,
        timestamp,
        thread: Some(with_alice()),
        body: ContentBody::DataMessage(DataMessage {
            body: Some(body.to_string()),
            timestamp: Some(timestamp),
            attachments: Vec::new(),
            sticker: false,
            reaction: None,
            quote: None,
            delete: None,
            group_v2: None,
        }),
    }
}

fn entry(thread: Thread, name: &str, last_ts: u64) -> ThreadEntry {
    ThreadEntry { thread, name: name.to_string(), last_preview: None, last_ts, unread: false }
}

fn press(code: KeyCode) -> KeyEvent {
    KeyEvent { code, shift: false, control: false, alt: false, kind: KeyEventKind::Press }
}

fn ch(c: char) -> KeyEvent {
    press(KeyCode::Char(c))
}

fn control(c: char) -> KeyEvent {
    KeyEvent { control: true, ..ch(c) }
}

fn list_app(n: u64) -> App {
    let mut threads = Vec::new();
    for i in 0..n {
        let id = Uuid { value: 10 + i as u128 };
        threads.push(entry(Thread::Contact(ServiceId::Aci(id)), &format!("t{}", i), 100 - i));
    }
    App::new(threads, Some(OWN), "/data".to_string())
}

fn chat_app() -> App {
    let mut app = list_app(1);
    let mut names = SenderNames::new();
    names.insert(ALICE, "Alice Wagner".to_string());
    app.open_chat(
        with_alice(),
        "Alice Wagner".to_string(),
        vec![text(ALICE, 1, "one"), text(OWN, 2, "two"), text(ALICE, 3, "three")],
        HashSet::new(),
        HashSet::new(),
        ReactionMap::new(),
        names,
    );
    app
}

fn chat(app: &App) -> &ChatState {
    match &app.chat {
        Some(c) => c,
        None => panic!("no chat"),
    }
}

fn hint(app: &App) -> Option<String> {
    chat(app).autocomplete_hint.clone()
}

fn command(app: &App) -> Option<String> {
    match &chat(app).mode {
        Mode::Command(s) => Some(s.clone()),
        _ => None,
    }
}

fn type_in(app: &mut App, s: &str) {
    for c in s.chars() {
        assert!(app.on_key(ch(c)).is_none());
    }
}

fn stage(app: &mut App, path: &str) {
    if let Some(c) = &mut app.chat {
        c.staged_attachments.push(sst::attach::StagedAttachment {
            path: path.to_string(),
            kind: "file",
            mime: "application/octet-stream",
            size: 1,
        });
    }
}

// ── The chat list ────────────────────────────────────────────────────────────

#[test]
fn new_client_selects_the_first_thread() {
    let app = list_app(2);
    assert_eq!(app.list_state, ListState { offset: 0, selected: Some(0) });
    assert_eq!(app.view, View::ChatList);
    assert!(!app.quit);
    assert!(app.chat.is_none());
    let none = list_app(0);
    assert_eq!(none.list_state.selected, None);
}

#[test]
fn list_keys_move_within_the_list() {
    let mut app = list_app(15);
    app.on_key(ch('j'));
    assert_eq!(app.list_state.selected, Some(1));
    app.on_key(press(KeyCode::PageDown));
    assert_eq!(app.list_state.selected, Some(11));
    app.on_key(press(KeyCode::PageDown));
    assert_eq!(app.list_state.selected, Some(14));
    app.on_key(press(KeyCode::Down));
    assert_eq!(app.list_state.selected, Some(14));
    app.on_key(press(KeyCode::PageUp));
    assert_eq!(app.list_state.selected, Some(4));
    app.on_key(press(KeyCode::PageUp));
    assert_eq!(app.list_state.selected, Some(0));
    app.on_key(ch('k'));
    assert_eq!(app.list_state.selected, Some(0));
}

#[test]
fn list_keys_do_nothing_without_threads() {
    let mut app = list_app(0);
    app.on_key(ch('j'));
    assert_eq!(app.list_state.selected, None);
    assert!(app.on_key(press(KeyCode::Enter)).is_none());
}

#[test]
fn list_opens_the_selected_thread() {
    let mut app = list_app(3);
    app.on_key(ch('j'));
    for key in [press(KeyCode::Enter), press(KeyCode::Right), ch('l')] {
        match app.on_key(key) {
            Some(AppCmd::OpenChat { thread, name }) => {
                assert_eq!(thread, Thread::Contact(ServiceId::Aci(Uuid { value: 11 })));
                assert_eq!(name, "t1");
            }
            _ => panic!("not opened"),
        }
    }
    assert!(matches!(app.on_key(ch('n')), Some(AppCmd::OpenContactBrowser)));
}

#[test]
fn list_quits() {
    for key in [ch('q'), ch('Q'), control('c')] {
        let mut app = list_app(1);
        assert!(app.on_key(key).is_none());
        assert!(app.quit);
    }
    let mut app = list_app(1);
    app.on_key(ch('c'));
    assert!(!app.quit);
}

#[test]
fn released_keys_do_not_count() {
    let mut app = list_app(3);
    app.on_key(KeyEvent { kind: KeyEventKind::Release, ..ch('q') });
    app.on_key(KeyEvent { kind: KeyEventKind::Repeat, ..ch('q') });
    assert!(!app.quit);
}

// ── The contact browser ──────────────────────────────────────────────────────

fn browser() -> App {
    let mut app = list_app(1);
    let group = Thread::Group(GroupKey { high: 7, low: 8 });
    app.open_contact_browser(
        vec![
            entry(with_alice(), "Alice", 0),
            entry(Thread::Contact(ServiceId::Aci(Uuid { value: 3 })), "Bob", 0),
            entry(group, "Family", 0),
        ],
        2,
    );
    app
}

#[test]
fn browser_skips_the_separator() {
    let mut app = browser();
    assert_eq!(app.view, View::ContactBrowser);
    let mut lines = vec![app.contact_list_state.selected];
    for _ in 0..4 {
        app.on_key(ch('j'));
        lines.push(app.contact_list_state.selected);
    }
    assert_eq!(lines, vec![Some(0), Some(1), Some(3), Some(3), Some(3)]);
    app.on_key(ch('k'));
    assert_eq!(app.contact_list_state.selected, Some(1));
    app.on_key(press(KeyCode::PageDown));
    assert_eq!(app.contact_list_state.selected, Some(3));
    app.on_key(press(KeyCode::PageUp));
    assert_eq!(app.contact_list_state.selected, Some(0));
    app.on_key(press(KeyCode::Up));
    assert_eq!(app.contact_list_state.selected, Some(0));
}

#[test]
fn browser_page_that_would_end_on_the_separator_goes_past_it() {
    let mut app = list_app(1);
    let mut entries = Vec::new();
    for i in 0..12u64 {
        entries.push(entry(Thread::Contact(ServiceId::Aci(Uuid { value: i as u128 })), "c", 0));
    }
    app.open_contact_browser(entries, 10);
    app.on_key(press(KeyCode::PageDown));
    assert_eq!(app.contact_list_state.selected, Some(11));
    app.contact_list_state.selected = Some(12);
    app.contacts_split = 2;
    app.on_key(press(KeyCode::PageUp));
    assert_eq!(app.contact_list_state.selected, Some(1));
}

#[test]
fn browser_keys_move_their_way() {
    let downward = [ch('j'), press(KeyCode::Down), press(KeyCode::PageDown)];
    let upward = [ch('k'), press(KeyCode::Up), press(KeyCode::PageUp)];
    let lines = browser().contacts.len();
    let separator = browser().contacts_split;
    for line in 0..=lines {
        if line == separator {
            continue;
        }
        for i in 0..3 {
            let mut app = browser();
            app.contact_list_state.selected = Some(line);
            assert!(app.on_key_contacts(downward[i]).is_none());
            assert!(app.contact_list_state.selected >= Some(line));
            assert_ne!(app.contact_list_state.selected, Some(separator));
            app.contact_list_state.selected = Some(line);
            assert!(app.on_key(upward[i]).is_none());
            assert!(app.contact_list_state.selected <= Some(line));
            assert_ne!(app.contact_list_state.selected, Some(separator));
        }
    }
}

#[test]
fn browser_opens_the_entry_on_the_line() {
    let mut app = browser();
    app.on_key(ch('j'));
    app.on_key(ch('j'));
    match app.on_key(ch('l')) {
        Some(AppCmd::OpenChat { name, .. }) => assert_eq!(name, "Family"),
        _ => panic!("not opened"),
    }
    app.contact_list_state.selected = Some(2);
    assert!(app.on_key(press(KeyCode::Enter)).is_none());
    app.contact_list_state.selected = Some(1);
    match app.on_key(press(KeyCode::Right)) {
        Some(AppCmd::OpenChat { name, .. }) => assert_eq!(name, "Bob"),
        _ => panic!("not opened"),
    }
}

#[test]
fn browser_goes_back() {
    for key in [press(KeyCode::Esc), press(KeyCode::Left), ch('q'), ch('Q'), ch('h')] {
        let mut app = browser();
        assert!(matches!(app.on_key(key), Some(AppCmd::RefreshThreadList)));
    }
    let mut app = browser();
    app.on_key(control('c'));
    assert!(app.quit);
}

// ── Normal mode ──────────────────────────────────────────────────────────────

#[test]
fn chat_closes() {
    for key in [ch('q'), ch('h'), press(KeyCode::Left)] {
        let mut app = chat_app();
        assert_eq!(app.view, View::ChatWindow);
        assert!(matches!(app.on_key(key), Some(AppCmd::RefreshThreadList)));
        assert!(app.chat.is_none());
        assert!(app.on_key(ch('j')).is_none());
    }
}

#[test]
fn selection_moves_over_messages() {
    let mut app = chat_app();
    app.on_key(ch('k'));
    assert_eq!(chat(&app).selected_message, Some(2));
    app.on_key(press(KeyCode::Up));
    app.on_key(ch('k'));
    assert_eq!(chat(&app).selected_message, Some(0));
    app.on_key(ch('k'));
    assert_eq!(chat(&app).selected_message, Some(0));
    app.on_key(press(KeyCode::Down));
    assert_eq!(chat(&app).selected_message, Some(1));
    app.on_key(ch('j'));
    app.on_key(ch('j'));
    assert_eq!(chat(&app).selected_message, Some(2));
    app.on_key(press(KeyCode::Esc));
    assert_eq!(chat(&app).selected_message, None);
    app.on_key(ch('j'));
    assert_eq!(chat(&app).selected_message, Some(0));
}

#[test]
fn selection_goes_round_through_staged_files() {
    let mut app = chat_app();
    stage(&mut app, "a");
    stage(&mut app, "b");
    let mut seen = Vec::new();
    app.on_key(ch('k'));
    for _ in 0..6 {
        seen.push((chat(&app).selected_message, chat(&app).selected_attachment));
        app.on_key(ch('j'));
    }
    assert_eq!(
        seen,
        vec![
            (Some(2), None),
            (None, Some(0)),
            (None, Some(1)),
            (Some(0), None),
            (Some(1), None),
            (Some(2), None),
        ]
    );
    assert_eq!(chat(&app).selected_attachment, Some(0));
    app.on_key(ch('k'));
    assert_eq!(chat(&app).selected_message, Some(2));
    app.on_key(ch('k'));
    app.on_key(ch('k'));
    app.on_key(ch('k'));
    assert_eq!(chat(&app).selected_attachment, Some(1));
}

#[test]
fn reply_needs_a_selection() {
    let mut app = chat_app();
    app.on_key(ch('r'));
    assert_eq!(hint(&app), Some("select a message first (j/k)".to_string()));
    app.on_key(ch('k'));
    assert_eq!(hint(&app), None);
    app.on_key(ch('r'));
    assert_eq!(chat(&app).reply_to, Some(2));
    assert!(matches!(chat(&app).mode, Mode::Insert));
}

#[test]
fn only_own_messages_are_edited() {
    let mut app = chat_app();
    app.on_key(ch('e'));
    assert_eq!(hint(&app), Some("select a message first (j/k)".to_string()));
    app.on_key(ch('k'));
    app.on_key(ch('e'));
    assert_eq!(hint(&app), Some("can only edit own messages".to_string()));
    app.on_key(ch('k'));
    app.on_key(ch('e'));
    assert_eq!(chat(&app).editing, Some((1, 2)));
    assert_eq!(chat(&app).input, "two");
    assert_eq!(chat(&app).cursor, 3);
    assert!(matches!(chat(&app).mode, Mode::Insert));
}

#[test]
fn deleting_takes_two_presses() {
    let mut app = chat_app();
    assert!(app.on_key(ch('d')).is_none());
    assert_eq!(hint(&app), Some("select a message first (j/k)".to_string()));
    app.on_key(ch('k'));
    assert!(app.on_key(ch('d')).is_none());
    assert_eq!(hint(&app), Some("d again to delete for everyone".to_string()));
    assert!(matches!(app.on_key(ch('d')), Some(AppCmd::DeleteMessage)));
    assert!(app.on_key(ch('d')).is_none());
    app.on_key(ch('k'));
    assert!(!chat(&app).pending_d);
    assert!(app.on_key(ch('d')).is_none());
}

#[test]
fn deleting_removes_a_staged_file() {
    let mut app = chat_app();
    stage(&mut app, "a");
    stage(&mut app, "b");
    app.on_key(ch('k'));
    app.on_key(ch('j'));
    app.on_key(ch('j'));
    assert_eq!(chat(&app).selected_attachment, Some(1));
    app.on_key(ch('d'));
    assert_eq!(hint(&app), Some("d again to remove attachment".to_string()));
    app.on_key(ch('d'));
    assert_eq!(chat(&app).staged_attachments.len(), 1);
    assert_eq!(chat(&app).staged_attachments[0].path, "a");
    assert_eq!(chat(&app).selected_attachment, Some(0));
    app.on_key(ch('d'));
    app.on_key(ch('d'));
    assert!(chat(&app).staged_attachments.is_empty());
    assert_eq!(chat(&app).selected_attachment, None);
}

#[test]
fn pages_scroll_by_the_height_of_the_view() {
    let mut app = chat_app();
    if let Some(c) = &mut app.chat {
        c.viewport_height = 7;
    }
    app.on_key(press(KeyCode::PageUp));
    app.on_key(press(KeyCode::PageUp));
    assert_eq!(chat(&app).scroll, 14);
    app.on_key(press(KeyCode::PageDown));
    assert_eq!(chat(&app).scroll, 7);
    app.on_key(press(KeyCode::PageDown));
    app.on_key(press(KeyCode::PageDown));
    assert_eq!(chat(&app).scroll, 0);
    if let Some(c) = &mut app.chat {
        c.scroll = usize::MAX;
    }
    app.on_key(press(KeyCode::PageUp));
    assert_eq!(chat(&app).scroll, usize::MAX);
}

// ── Insert mode ──────────────────────────────────────────────────────────────

#[test]
fn typing_and_backspace() {
    let mut app = chat_app();
    app.on_key(ch('i'));
    type_in(&mut app, "aß");
    app.on_key(KeyEvent { alt: true, ..press(KeyCode::Enter) });
    app.on_key(KeyEvent { shift: true, ..press(KeyCode::Enter) });
    assert_eq!(chat(&app).input, "aß\n\n");
    assert_eq!(chat(&app).cursor, 5);
    app.on_key(press(KeyCode::Backspace));
    app.on_key(control('h'));
    app.on_key(press(KeyCode::Backspace));
    assert_eq!(chat(&app).input, "a");
    assert_eq!(chat(&app).cursor, 1);
    app.on_key(press(KeyCode::Left));
    app.on_key(press(KeyCode::Backspace));
    assert_eq!(chat(&app).input, "a");
    type_in(&mut app, "q");
    assert_eq!(chat(&app).input, "qa");
    app.on_key(press(KeyCode::Right));
    assert_eq!(chat(&app).cursor, 2);
}

#[test]
fn escape_discards_the_input() {
    let mut app = chat_app();
    app.on_key(ch('i'));
    type_in(&mut app, "draft");
    app.on_key(press(KeyCode::Esc));
    assert!(matches!(chat(&app).mode, Mode::Normal));
    assert_eq!(chat(&app).input, "");
    assert_eq!(chat(&app).cursor, 0);
}

#[test]
fn enter_sends_what_is_not_blank() {
    let mut app = chat_app();
    app.on_key(ch('i'));
    assert!(app.on_key(press(KeyCode::Enter)).is_none());
    type_in(&mut app, "  ");
    assert!(app.on_key(press(KeyCode::Enter)).is_none());
    type_in(&mut app, "x");
    assert!(matches!(app.on_key(press(KeyCode::Enter)), Some(AppCmd::SendMessage)));
    let mut files = chat_app();
    stage(&mut files, "a");
    files.on_key(ch('i'));
    assert!(matches!(files.on_key(press(KeyCode::Enter)), Some(AppCmd::SendMessage)));
}

#[test]
fn cursor_moves_between_lines() {
    let mut app = chat_app();
    app.on_key(ch('i'));
    app.on_paste("long line\r\nab\rlast");
    assert_eq!(chat(&app).input, "long line\nab\nlast");
    assert_eq!(chat(&app).cursor, 17);
    app.on_key(press(KeyCode::Up));
    assert_eq!(chat(&app).cursor, 12);
    app.on_key(press(KeyCode::Up));
    assert_eq!(chat(&app).cursor, 2);
    app.on_key(press(KeyCode::Up));
    assert_eq!(chat(&app).cursor, 2);
    app.on_key(press(KeyCode::Down));
    assert_eq!(chat(&app).cursor, 12);
}

#[test]
fn a_single_mention_is_completed() {
    let mut app = chat_app();
    app.on_key(ch('i'));
    type_in(&mut app, "hi @ali");
    app.on_key(press(KeyCode::Tab));
    assert_eq!(chat(&app).input, "hi @Alice Wagner ");
    assert_eq!(chat(&app).cursor, 17);
}

#[test]
fn several_mentions_are_listed() {
    let mut app = chat_app();
    if let Some(c) = &mut app.chat {
        c.sender_names.insert(Uuid { value: 9 }, "Bob".to_string());
    }
    app.on_key(ch('i'));
    type_in(&mut app, "@");
    app.on_key(press(KeyCode::Tab));
    assert_eq!(hint(&app), Some("@Alice Wagner   @Bob ".to_string()));
    assert_eq!(chat(&app).input, "@");
    app.on_key(press(KeyCode::Tab));
    assert_eq!(hint(&app), Some("@Alice Wagner   @Bob ".to_string()));
    type_in(&mut app, "z");
    app.on_key(press(KeyCode::Tab));
    assert_eq!(hint(&app), None);
}

#[test]
fn a_mention_is_completed_from_past_the_end() {
    let mut names = SenderNames::new();
    names.insert(ALICE, "Alice".to_string());
    let found = completion_candidates("hi @al", 40, &names);
    assert_eq!(found, Some((3, 40, vec!["@Alice ".to_string()])));
}

#[test]
fn nothing_is_completed_behind_a_space() {
    let mut app = chat_app();
    app.on_key(ch('i'));
    type_in(&mut app, "@ali x");
    app.on_key(press(KeyCode::Tab));
    assert_eq!(chat(&app).input, "@ali x");
    assert_eq!(hint(&app), None);
}

// ── Command mode ─────────────────────────────────────────────────────────────

#[test]
fn command_line_is_edited_and_run() {
    let mut app = chat_app();
    app.on_key(ch(':'));
    assert_eq!(command(&app), Some(String::new()));
    type_in(&mut app, "quix");
    app.on_key(press(KeyCode::Backspace));
    type_in(&mut app, "t");
    match app.on_key(press(KeyCode::Enter)) {
        Some(AppCmd::ExecCmd(s)) => assert_eq!(s, "quit"),
        _ => panic!("not run"),
    }
    assert!(matches!(chat(&app).mode, Mode::Normal));
    app.on_key(ch(':'));
    app.on_key(press(KeyCode::Backspace));
    assert!(app.on_key(press(KeyCode::Enter)).is_none());
    app.on_key(ch(':'));
    type_in(&mut app, "x");
    app.on_key(press(KeyCode::Esc));
    assert!(matches!(chat(&app).mode, Mode::Normal));
}

#[test]
fn command_names_are_completed() {
    let mut app = chat_app();
    app.on_key(ch(':'));
    type_in(&mut app, "RE");
    app.on_key(press(KeyCode::Tab));
    assert_eq!(command(&app), Some("react".to_string()));
    app.on_key(press(KeyCode::Esc));
    app.on_key(ch(':'));
    type_in(&mut app, "do");
    app.on_key(press(KeyCode::Tab));
    assert_eq!(hint(&app), Some(":download  :download-all".to_string()));
    app.on_key(press(KeyCode::Esc));
    app.on_key(ch(':'));
    app.on_key(press(KeyCode::Tab));
    assert_eq!(
        hint(&app),
        Some(":download  :download-all  :quit  :react  :upload".to_string())
    );
    type_in(&mut app, "zz");
    app.on_key(press(KeyCode::Tab));
    assert_eq!(hint(&app), None);
    assert_eq!(command(&app), Some("zz".to_string()));
}

#[test]
fn shortcodes_are_completed() {
    let mut app = chat_app();
    app.on_key(ch(':'));
    type_in(&mut app, "react wavin");
    app.on_key(press(KeyCode::Tab));
    assert_eq!(command(&app), Some("react wavin".to_string()));
    app.on_key(press(KeyCode::Esc));
    app.on_key(ch(':'));
    type_in(&mut app, "react thumbs");
    app.on_key(press(KeyCode::Tab));
    assert_eq!(hint(&app), Some("thumbsdown  thumbsup".to_string()));
    type_in(&mut app, "u");
    app.on_key(press(KeyCode::Tab));
    assert_eq!(command(&app), Some("react thumbsup".to_string()));
    app.on_key(press(KeyCode::Esc));
    app.on_key(ch(':'));
    type_in(&mut app, "react ");
    app.on_key(press(KeyCode::Tab));
    assert_eq!(hint(&app), None);
}

#[test]
fn paths_are_completed() {
    for name in ["upload", "download", "download-all"] {
        let mut app = chat_app();
        app.on_key(ch(':'));
        type_in(&mut app, name);
        type_in(&mut app, " src/m");
        match app.on_key(press(KeyCode::Tab)) {
            Some(AppCmd::ListDirectory(dir)) => assert_eq!(dir, "src"),
            _ => panic!("not asked"),
        }
        let entries = vec![
            DirEntry { name: "lib.rs".to_string(), is_dir: false },
            DirEntry { name: "main.rs".to_string(), is_dir: false },
        ];
        if let Some(c) = &mut app.chat {
            c.on_directory(&entries);
        }
        assert_eq!(command(&app), Some(format!("{} src/main.rs", name)));
    }
}

#[test]
fn paths_are_listed() {
    let mut app = chat_app();
    app.on_key(ch(':'));
    type_in(&mut app, "upload /");
    match app.on_key(press(KeyCode::Tab)) {
        Some(AppCmd::ListDirectory(dir)) => assert_eq!(dir, "/"),
        _ => panic!("not asked"),
    }
    let entries = vec![
        DirEntry { name: "tmp".to_string(), is_dir: true },
        DirEntry { name: "file".to_string(), is_dir: false },
    ];
    if let Some(c) = &mut app.chat {
        c.on_directory(&entries);
    }
    assert_eq!(hint(&app), Some("file  tmp/".to_string()));
    if let Some(c) = &mut app.chat {
        c.on_directory(&Vec::new());
    }
    assert_eq!(hint(&app), Some("file  tmp/".to_string()));
}

#[test]
fn pasted_command_is_one_line() {
    let mut app = chat_app();
    app.on_key(ch(':'));
    type_in(&mut app, "upload ");
    app.on_paste("a\r\nb\rc\n \n");
    assert_eq!(command(&app), Some("upload a b c".to_string()));
    app.on_key(press(KeyCode::Esc));
    app.on_paste("ignored");
    assert_eq!(chat(&app).input, "");
}

// ── Messages from the service ────────────────────────────────────────────────

#[test]
fn a_message_moves_its_thread_up() {
    let mut app = App::new(
        vec![
            entry(Thread::Group(GroupKey { high: 1, low: 1 }), "Group", 50),
            entry(with_alice(), "Alice", 40),
        ],
        Some(OWN),
        String::new(),
    );
    app.on_signal(&Received::Content(text(ALICE, 60, "hello")));
    assert_eq!(app.threads[0].name, "Alice");
    assert_eq!(app.threads[0].last_preview, Some("hello".to_string()));
    assert_eq!(app.threads[0].last_ts, 60);
    assert!(app.threads[0].unread);
    assert!(!app.threads[1].unread);
}

#[test]
fn an_older_message_changes_only_the_preview() {
    let mut app = App::new(vec![entry(with_alice(), "Alice", 40)], Some(OWN), String::new());
    app.on_signal(&Received::Content(text(ALICE, 40, "old")));
    assert_eq!(app.threads[0].last_preview, Some("old".to_string()));
    assert_eq!(app.threads[0].last_ts, 40);
    assert!(!app.threads[0].unread);
}

#[test]
fn a_new_contact_is_listed_and_a_new_group_is_not() {
    let mut app = App::new(Vec::new(), Some(OWN), String::new());
    app.on_signal(&Received::Content(text(ALICE, 5, "hello")));
    assert_eq!(app.threads.len(), 1);
    assert_eq!(app.threads[0].name, "00000000-0000-0000-0000-000000000002");
    assert!(app.threads[0].unread);
    let mut m = text(ALICE, 6, "hello");
    m.thread = Some(Thread::Group(GroupKey { high: 1, low: 1 }));
    app.on_signal(&Received::Content(m));
    assert_eq!(app.threads.len(), 1);
    app.on_signal(&Received::Content(text(ALICE, 9, "again")));
    assert_eq!(app.threads.len(), 1);
}

#[test]
fn receipts_leave_the_threads_alone() {
    let mut app = App::new(vec![entry(with_alice(), "Alice", 40)], Some(OWN), String::new());
    let mut m = text(ALICE, 60, "");
    app.on_signal(&Received::Content(m));
    m = text(ALICE, 60, "x");
    m.body = ContentBody::Other;
    app.on_signal(&Received::Content(m));
    app.on_signal(&Received::QueueEmpty);
    app.on_signal(&Received::Contacts);
    assert_eq!(app.threads[0].last_preview, None);
    assert_eq!(app.threads[0].last_ts, 40);
}

#[test]
fn equal_times_keep_their_order() {
    let mut app = App::new(
        vec![
            entry(Thread::Group(GroupKey { high: 1, low: 1 }), "a", 9),
            entry(Thread::Group(GroupKey { high: 1, low: 2 }), "b", 9),
            entry(with_alice(), "c", 3),
        ],
        Some(OWN),
        String::new(),
    );
    app.on_signal(&Received::Content(text(ALICE, 9, "x")));
    let names: Vec<&str> = app.threads.iter().map(|t| t.name.as_str()).collect();
    assert_eq!(names, vec!["a", "b", "c"]);
}
