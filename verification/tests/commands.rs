use std::collections::HashSet;

use sst::app::App;
use sst::attach::{
    attachment_filename, kind_from_mime, message_downloads, mime_from_path, resolve_download_dir,
    safe_name, stage_attachment, thread_downloads, upload_spec, upload_staged_attachments,
    FileMeta, StagedAttachment, UploadOutcome,
};
use sst::chat::ChatState;
use sst::command::{
    all_shortcodes, emoji_for, parse_colon_cmd, react_tab, resolve_emoji, shortcode_to_look_up,
    ColonCmd, Tab,
};
use sst::complete::{complete_path, path_query, DirEntry};
use sst::content::{
    message_body, AttachmentPointer, Content, ContentBody, DataMessage, Reaction,
};
use sst::exec::{
    download_all_failure, download_all_progress, download_progress, download_summary,
    draft_message, CmdAction,
};
use sst::ids::{ServiceId, Thread, Uuid};
use sst::roster::{SenderNames, ThreadEntry};
use sst::screen::View;

const OWN: Uuid = Uuid { value: 1 };
const ALICE: Uuid = Uuid { value: 2 };

fn with_alice() -> Thread {
    Thread::Contact(ServiceId::Aci(ALICE))
}

fn pointer(name: Option<&str>) -> AttachmentPointer {
    AttachmentPointer { file_name: name.map(|s| s.to_string()), flags: None, raw: Vec::new() }
}

fn message(sender: Uuid, timestamp: u64, body: &str, files: Vec<AttachmentPointer>) -> Content {
    Content {
        sender,
        timestamp,
        thread: Some(with_alice()),
        body: ContentBody::DataMessage(DataMessage {
            body: Some(body.to_string()),
            timestamp: None,
            attachments: files,
            sticker: false,
            reaction: None,
            quote: None,
            delete: None,
            group_v2: None,
        }),
    }
}

fn reaction(sender: Uuid, timestamp: u64, emoji: &str, target: u64) -> Content {
    let mut c = message(sender, timestamp, "", Vec::new());
    if let ContentBody::DataMessage(m) = &mut c.body {
        m.reaction = Some(Reaction {
            emoji: Some(emoji.to_string()),
            remove: None,
            target_author_aci: None,
            target_author_aci_binary: None,
            target_sent_timestamp: Some(target),
        });
    }
    c
}

fn records() -> Vec<Option<Content>> {
    vec![
        Some(reaction(OWN, 9, "👍", 1)),
        Some(message(ALICE, 3, "three", vec![pointer(Some("a/b.png")), pointer(None)])),
        Some(message(OWN, 2, "two", vec![pointer(Some(""))])),
        Some(message(ALICE, 1, "one", Vec::new())),
    ]
}

fn opened() -> App {
    let mut app = App::new(Vec::new(), Some(OWN), String::new());
    let acks = app.open_thread(
        with_alice(),
        "Alice".to_string(),
        records(),
        Some((HashSet::from([2]), HashSet::new())),
        SenderNames::new(),
    );
    assert_eq!(acks, vec![1, 3]);
    app
}

fn chat(app: &App) -> &ChatState {
    match &app.chat {
        Some(c) => c,
        None => panic!("no chat"),
    }
}

fn chat_mut(app: &mut App) -> &mut ChatState {
    match &mut app.chat {
        Some(c) => c,
        None => panic!("no chat"),
    }
}

fn hint(app: &App) -> String {
    match &chat(app).autocomplete_hint {
        Some(h) => h.clone(),
        None => String::new(),
    }
}

fn staged(path: &str, mime: &'static str) -> StagedAttachment {
    StagedAttachment { path: path.to_string(), kind: "file", mime, size: 3 }
}

// ── Parsing ──────────────────────────────────────────────────────────────────

#[test]
fn commands_are_parsed() {
    assert!(matches!(parse_colon_cmd(" :quit "), Some(ColonCmd::Quit)));
    match parse_colon_cmd(":react  wave ") {
        Some(ColonCmd::React(a)) => assert_eq!(a, "wave"),
        _ => panic!("not parsed"),
    }
    match parse_colon_cmd(":react") {
        Some(ColonCmd::React(a)) => assert_eq!(a, ""),
        _ => panic!("not parsed"),
    }
    match parse_colon_cmd(":upload a b") {
        Some(ColonCmd::Upload(a)) => assert_eq!(a, "a b"),
        _ => panic!("not parsed"),
    }
    assert!(matches!(parse_colon_cmd(":download"), Some(ColonCmd::Download(_))));
    assert!(matches!(parse_colon_cmd(":download-all /x"), Some(ColonCmd::DownloadAll(_))));
    assert!(parse_colon_cmd("quit").is_none());
    assert!(parse_colon_cmd(":Quit").is_none());
    assert!(parse_colon_cmd("").is_none());
    assert!(parse_colon_cmd(":").is_none());
}

#[test]
fn emoji_are_resolved() {
    assert_eq!(resolve_emoji("wave"), Some("👋".to_string()));
    assert_eq!(resolve_emoji(" ❤️ "), Some("❤️".to_string()));
    assert_eq!(resolve_emoji("no such shortcode"), None);
    assert_eq!(resolve_emoji("  "), None);
    assert_eq!(shortcode_to_look_up(" wave "), Some("wave".to_string()));
    assert_eq!(shortcode_to_look_up("👋"), None);
    assert_eq!(emoji_for("x", Some("y".to_string())), Some("y".to_string()));
    assert_eq!(emoji_for("👋", Some("y".to_string())), Some("👋".to_string()));
    assert_eq!(emoji_for(" ", Some("y".to_string())), None);
}

#[test]
fn shortcodes_come_from_the_table() {
    let all = all_shortcodes();
    let mut expected: Vec<String> = Vec::new();
    for e in emojis::iter() {
        for s in e.shortcodes() {
            expected.push(s.to_string());
        }
    }
    assert!(all.len() > 1000);
    assert_eq!(all, expected);
    let codes = vec!["wave".to_string(), "watch".to_string(), "x".to_string()];
    match react_tab("WA", &codes) {
        Tab::Hint(h) => assert_eq!(h, "watch  wave"),
        _ => panic!("no hint"),
    }
    match react_tab("x", &codes) {
        Tab::Complete(s) => assert_eq!(s, "react x"),
        _ => panic!("not completed"),
    }
    assert!(matches!(react_tab("é", &codes), Tab::Nothing));
    assert!(matches!(react_tab("q", &codes), Tab::Nothing));
}

#[test]
fn path_queries() {
    let q = path_query("src/ma");
    assert_eq!((q.dir.as_str(), q.file_prefix.as_str(), q.dir_prefix.as_str()), ("src", "ma", "src/"));
    let q = path_query("src/");
    assert_eq!((q.dir.as_str(), q.file_prefix.as_str(), q.dir_prefix.as_str()), ("src/", "", "src/"));
    let q = path_query("ma");
    assert_eq!((q.dir.as_str(), q.file_prefix.as_str(), q.dir_prefix.as_str()), (".", "ma", ""));
    let q = path_query("");
    assert_eq!((q.dir.as_str(), q.file_prefix.as_str(), q.dir_prefix.as_str()), (".", "", ""));
    let q = path_query("/et");
    assert_eq!((q.dir.as_str(), q.file_prefix.as_str(), q.dir_prefix.as_str()), ("/", "et", "//"));
    let entries = vec![
        DirEntry { name: "main.rs".to_string(), is_dir: false },
        DirEntry { name: "macros".to_string(), is_dir: true },
        DirEntry { name: "lib.rs".to_string(), is_dir: false },
    ];
    assert_eq!(complete_path("src/ma", &entries), vec!["src/macros/", "src/main.rs"]);
    assert_eq!(complete_path("x", &entries), Vec::<String>::new());
}

// ── Running ──────────────────────────────────────────────────────────────────

#[test]
fn quit_needs_a_chat() {
    let mut app = opened();
    assert!(matches!(app.exec_cmd("quit"), CmdAction::Nothing));
    assert!(app.quit);
    let mut none = App::new(Vec::new(), Some(OWN), String::new());
    assert!(matches!(none.exec_cmd("quit"), CmdAction::Nothing));
    assert!(!none.quit);
}

#[test]
fn unknown_commands_are_named() {
    let mut app = opened();
    app.exec_cmd("fly away");
    assert_eq!(hint(&app), "unknown command: :fly away");
}

#[test]
fn reacting_needs_a_message_and_an_emoji() {
    let mut app = opened();
    app.exec_cmd("react wave");
    assert_eq!(hint(&app), "no message selected");
    app.exec_cmd("react");
    assert_eq!(hint(&app), "no message selected");
    chat_mut(&mut app).selected_message = Some(1);
    app.exec_cmd("react nonsense");
    assert_eq!(hint(&app), "unknown emoji: nonsense");
    app.exec_cmd("react");
    assert_eq!(hint(&app), "(no reactions)");
    chat_mut(&mut app).selected_message = Some(0);
    app.exec_cmd("react");
    assert_eq!(hint(&app), "1x👍");
}

#[test]
fn reacting_twice_takes_back() {
    let mut app = opened();
    chat_mut(&mut app).selected_message = Some(0);
    match app.exec_cmd("react wave") {
        CmdAction::React { emoji, target_ts, target_author, remove } => {
            assert_eq!((emoji.as_str(), target_ts, target_author, remove), ("👋", 1, ALICE, false));
        }
        _ => panic!("not sent"),
    }
    match app.exec_cmd("react 👍") {
        CmdAction::React { remove, .. } => assert!(remove),
        _ => panic!("not sent"),
    }
}

#[test]
fn uploads_are_staged() {
    let mut app = opened();
    app.exec_cmd("upload");
    assert_eq!(hint(&app), ":upload <path>");
    match app.exec_cmd("upload /tmp/x.png") {
        CmdAction::Stage(path) => {
            let ok = stage_attachment(&path, Ok(FileMeta { is_file: true, size: 12 }));
            chat_mut(&mut app).on_staged(ok);
        }
        _ => panic!("not staged"),
    }
    let s = &chat(&app).staged_attachments;
    assert_eq!(s.len(), 1);
    assert_eq!((s[0].path.as_str(), s[0].kind, s[0].mime, s[0].size), ("/tmp/x.png", "image", "image/png", 12));
    chat_mut(&mut app).on_staged(stage_attachment("/d", Ok(FileMeta { is_file: false, size: 0 })));
    assert_eq!(hint(&app), "/d: not a file");
    chat_mut(&mut app).on_staged(stage_attachment("/n", Err("gone".to_string())));
    assert_eq!(hint(&app), "/n: gone");
}

#[test]
fn downloads_are_planned() {
    let mut app = opened();
    app.exec_cmd("download");
    assert_eq!(hint(&app), "select a message first (j/k)");
    chat_mut(&mut app).selected_message = Some(0);
    app.exec_cmd("download");
    assert_eq!(hint(&app), "no attachments on selected message");
    chat_mut(&mut app).selected_message = Some(2);
    match app.exec_cmd("download /out") {
        CmdAction::Download { files, dir } => {
            assert_eq!(dir, "/out");
            let names: Vec<&str> = files.iter().map(|f| f.filename.as_str()).collect();
            assert_eq!(names, vec!["a_b.png", "attachment-1"]);
            assert_eq!((files[1].message, files[1].attachment), (2, 1));
        }
        _ => panic!("not planned"),
    }
    match app.exec_cmd("download-all") {
        CmdAction::DownloadAll { files, messages, dir } => {
            assert_eq!(dir, "");
            assert_eq!(messages, 2);
            let names: Vec<&str> = files.iter().map(|f| f.filename.as_str()).collect();
            assert_eq!(names, vec!["attachment-0", "a_b.png", "attachment-2"]);
            let numbers: Vec<usize> = files.iter().map(|f| f.number).collect();
            assert_eq!(numbers, vec![1, 2, 2]);
        }
        _ => panic!("not planned"),
    }
    assert!(message_downloads(&chat(&app).messages, 99).is_empty());
    let (none, count) = thread_downloads(&Vec::new());
    assert!(none.is_empty());
    assert_eq!(count, 0);
    chat_mut(&mut app).messages.truncate(1);
    app.exec_cmd("download-all");
    assert_eq!(hint(&app), "no attachments in this chat");
}

#[test]
fn download_messages() {
    assert_eq!(download_progress(0, 1), None);
    assert_eq!(download_progress(1, 3), Some("downloading 2/3…".to_string()));
    assert_eq!(download_all_progress(1, 3, 1, 2), "downloading 2/3 (message 1/2)…");
    assert_eq!(download_all_failure(1, "gone"), "file 2: gone");
    assert_eq!(download_summary(3, "/out"), "saved 3 file(s) to /out");
}

#[test]
fn download_directories() {
    assert_eq!(resolve_download_dir("/x", None, "A"), Ok("/x".to_string()));
    assert_eq!(
        resolve_download_dir("", Some("/home/u"), "A/B\\C"),
        Ok("/home/u/Downloads/sst/A_B_C".to_string())
    );
    assert_eq!(
        resolve_download_dir("", Some("/home/u/"), "A"),
        Ok("/home/u/Downloads/sst/A".to_string())
    );
    assert_eq!(resolve_download_dir("", None, "A"), Err("$HOME not set".to_string()));
    assert_eq!(safe_name("a\0b"), "a_b");
    assert_eq!(attachment_filename(&pointer(Some("x.y")), 4), "x.y");
    assert_eq!(attachment_filename(&pointer(None), 4), "attachment-4");
}

// ── Files ────────────────────────────────────────────────────────────────────

#[test]
fn media_types() {
    assert_eq!(mime_from_path("photo.JPG"), "image/jpeg");
    assert_eq!(mime_from_path("a.tar.gz"), "application/gzip");
    assert_eq!(mime_from_path("noext"), "application/octet-stream");
    assert_eq!(mime_from_path(".gif"), "application/octet-stream");
    assert_eq!(mime_from_path("x.opus"), "audio/opus");
    assert_eq!(mime_from_path("x.mkv"), "video/x-matroska");
    assert_eq!(kind_from_mime("image/gif"), "gif");
    assert_eq!(kind_from_mime("image/png"), "image");
    assert_eq!(kind_from_mime("video/mp4"), "video");
    assert_eq!(kind_from_mime("audio/ogg"), "audio");
    assert_eq!(kind_from_mime("application/pdf"), "file");
}

#[test]
fn uploads_mark_animations() {
    let files = vec![staged("/a/x.gif", "image/gif"), staged("/a/y", "application/pdf")];
    let s = upload_spec(&files[0], 77);
    assert_eq!((s.content_type.as_str(), s.length, s.file_name), ("image/gif", 77, Some("x.gif".to_string())));
    let mut first = pointer(None);
    first.flags = Some(1);
    let done = upload_staged_attachments(
        &files,
        vec![UploadOutcome::Uploaded(first), UploadOutcome::Uploaded(pointer(None))],
    );
    match done {
        Ok(p) => {
            assert_eq!(p[0].flags, Some(9));
            assert_eq!(p[1].flags, None);
        }
        Err(_) => panic!("failed"),
    }
}

#[test]
fn failed_uploads_name_the_file() {
    let files = vec![staged("/a", "x"), staged("/b", "x")];
    let outcome = |o| {
        match upload_staged_attachments(&files, vec![UploadOutcome::Uploaded(pointer(None)), o]) {
            Ok(_) => panic!("succeeded"),
            Err(e) => e,
        }
    };
    let path = "/b".to_string();
    assert_eq!(outcome(UploadOutcome::Unreadable("e".to_string())), ("/b: e".to_string(), path.clone()));
    assert_eq!(outcome(UploadOutcome::Refused("e".to_string())), ("upload failed: e".to_string(), path.clone()));
    assert_eq!(outcome(UploadOutcome::Failed("e".to_string())), ("upload error: e".to_string(), path));
}

// ── Drafts ───────────────────────────────────────────────────────────────────

#[test]
fn a_draft_becomes_a_message() {
    let mut app = opened();
    let c = chat_mut(&mut app);
    c.input = " hello \n".to_string();
    c.cursor = 3;
    let draft = c.take_draft();
    assert_eq!(c.input, "");
    assert_eq!(c.cursor, 0);
    assert!(!draft.is_edit_or_reply());
    match draft_message(draft, Vec::new(), 0, 50) {
        Some(out) => match &out.body {
            ContentBody::DataMessage(m) => assert_eq!(m.body, Some("hello".to_string())),
            _ => panic!("no message"),
        },
        None => panic!("nothing sent"),
    }
}

#[test]
fn a_draft_becomes_a_reply() {
    let mut app = opened();
    let c = chat_mut(&mut app);
    c.selected_message = Some(0);
    c.reply_to = Some(0);
    c.input = "yes".to_string();
    let draft = c.take_draft();
    assert!(draft.is_edit_or_reply());
    match draft_message(draft, Vec::new(), 0, 50) {
        Some(out) => match &out.body {
            ContentBody::DataMessage(m) => {
                assert_eq!(m.quote.as_ref().and_then(|q| q.text.clone()), Some("one".to_string()));
            }
            _ => panic!("no message"),
        },
        None => panic!("nothing sent"),
    }
    c.on_sent(true);
    assert_eq!(c.selected_message, None);
    assert_eq!(c.reply_to, None);
}

#[test]
fn a_draft_becomes_an_edit_and_keeps_the_files() {
    let mut app = opened();
    let c = chat_mut(&mut app);
    c.staged_attachments.push(staged("/a", "x"));
    c.editing = Some((1, 2));
    c.reply_to = Some(0);
    c.input = "better".to_string();
    let draft = c.take_draft();
    assert!(draft.staged.is_empty());
    assert_eq!(c.staged_attachments.len(), 1);
    assert_eq!(c.editing, None);
    match draft_message(draft, Vec::new(), 0, 50) {
        Some(out) => match &out.body {
            ContentBody::EditMessage(e) => assert_eq!(e.target_sent_timestamp, Some(2)),
            _ => panic!("no edit"),
        },
        None => panic!("nothing sent"),
    }
}

#[test]
fn an_empty_draft_sends_nothing() {
    let mut app = opened();
    let draft = chat_mut(&mut app).take_draft();
    assert!(draft_message(draft, Vec::new(), 0, 50).is_none());
}

#[test]
fn files_are_staged_again_after_a_failed_upload() {
    let mut app = opened();
    let c = chat_mut(&mut app);
    c.staged_attachments = vec![staged("/a", "x"), staged("/b", "x"), staged("/c", "x")];
    c.selected_attachment = Some(2);
    let draft = c.take_draft();
    assert_eq!(draft.staged.len(), 3);
    c.uploads_failed(draft.staged, "upload failed: e".to_string(), "/b");
    let left: Vec<&str> = c.staged_attachments.iter().map(|a| a.path.as_str()).collect();
    assert_eq!(left, vec!["/a", "/c"]);
    assert_eq!(c.selected_attachment, Some(1));
    assert_eq!(c.autocomplete_hint, Some("upload failed: e".to_string()));
    let draft = c.take_draft();
    assert_eq!(draft.staged.len(), 2);
    c.uploads_done();
    assert_eq!(c.selected_attachment, None);
}

// ── Screens ──────────────────────────────────────────────────────────────────

#[test]
fn threads_are_shown_with_the_selection_inside() {
    let line = |name: &str| ThreadEntry {
        thread: with_alice(),
        name: name.to_string(),
        last_preview: None,
        last_ts: 1,
        unread: false,
    };
    let mut app = opened();
    app.show_threads(vec![line("a"), line("b")]);
    assert_eq!(app.view, View::ChatList);
    assert_eq!(app.list_state.selected, Some(0));
    app.list_state.selected = Some(1);
    app.show_threads(vec![line("a")]);
    assert_eq!(app.list_state.selected, Some(0));
    app.show_threads(Vec::new());
    assert_eq!(app.list_state.selected, Some(0));
}

#[test]
fn new_messages_are_taken_over_and_acknowledged() {
    let mut app = opened();
    assert!(chat(&app).delivered.contains(&2));
    let mut more = records();
    more.insert(0, Some(message(ALICE, 20, "four", Vec::new())));
    let acks = chat_mut(&mut app).on_received(
        Some(OWN),
        more,
        Some((HashSet::from([2]), HashSet::from([2]))),
    );
    assert_eq!(acks, vec![20]);
    assert_eq!(chat(&app).messages.len(), 4);
    assert!(chat(&app).read.contains(&2));
    let acks = chat_mut(&mut app).on_received(Some(OWN), records(), None);
    assert!(acks.is_empty());
    assert!(chat(&app).read.contains(&2));
    chat_mut(&mut app).reload(vec![Some(message(ALICE, 1, "only", Vec::new()))]);
    assert_eq!(message_body(&chat(&app).messages[0]), "only");
}

#[test]
fn only_own_messages_are_deleted() {
    let mut app = opened();
    assert!(app.delete_request().is_none());
    chat_mut(&mut app).selected_message = Some(0);
    assert!(app.delete_request().is_none());
    assert_eq!(hint(&app), "can only delete own messages");
    chat_mut(&mut app).selected_message = Some(99);
    assert!(app.delete_request().is_none());
    chat_mut(&mut app).selected_message = Some(1);
    assert_eq!(app.delete_request(), Some((with_alice(), 2, 1)));
    chat_mut(&mut app).on_deleted(1);
    assert_eq!(chat(&app).messages.len(), 2);
    assert_eq!(chat(&app).selected_message, Some(1));
    chat_mut(&mut app).on_deleted(1);
    assert_eq!(chat(&app).selected_message, Some(0));
    chat_mut(&mut app).on_deleted(0);
    assert_eq!(chat(&app).selected_message, None);
}
