use std::collections::HashSet;

use sst::content::{
    apply_edit_body, extract_edit, extract_preview, extract_update, message_body, message_quote,
    AttachmentPointer, Content, ContentBody, DataMessage, EditMessage, Quote, Reaction,
    ReceiptMessage, Sent,
};
use sst::history::{
    known_timestamps, last_message, load_messages, load_messages_and_reactions,
    load_receipt_state, timestamps_to_ack,
};
use sst::ids::{GroupKey, ServiceId, Thread, Uuid};
use sst::outgoing::{
    delete_for_everyone, group_request, send_edit, send_reaction, send_read_receipt, send_reply,
    send_to_thread, Outgoing, QuoteInfo,
};
use sst::reactions::{fmt_reaction_pairs, format_reactions, reaction_hint, ReactionMap};

const OWN: Uuid = Uuid { value: 1 };
const ALICE: Uuid = Uuid { value: 2 };
const BOB: Uuid = Uuid { value: 3 };

fn with_alice() -> Thread {
    Thread::Contact(ServiceId::Aci(ALICE))
}

fn family() -> Thread {
    Thread::Group(GroupKey { high: 5, low: 6 })
}

fn data(body: Option<&str>) -> DataMessage {
    DataMessage {
        body: body.map(|s| s.to_string()),
        timestamp: None,
        attachments: Vec::new(),
        sticker: false,
        reaction: None,
        quote: None,
        delete: None,
        group_v2: None,
    }
}

fn content(sender: Uuid, timestamp: u64, body: ContentBody) -> Content {
    Content { sender, timestamp, thread: Some(with_alice()), body }
}

fn text(sender: Uuid, timestamp: u64, body: &str) -> Content {
    content(sender, timestamp, ContentBody::DataMessage(data(Some(body))))
}

fn pointer(name: Option<&str>) -> AttachmentPointer {
    AttachmentPointer { file_name: name.map(|s| s.to_string()), flags: None, raw: Vec::new() }
}

fn reaction(sender: Uuid, timestamp: u64, emoji: &str, remove: bool, target: u64) -> Content {
    let mut msg = data(None);
    msg.reaction = Some(Reaction {
        emoji: Some(emoji.to_string()),
        remove: Some(remove),
        target_author_aci: None,
        target_author_aci_binary: None,
        target_sent_timestamp: Some(target),
    });
    content(sender, timestamp, ContentBody::DataMessage(msg))
}

fn edit(sender: Uuid, timestamp: u64, target: u64, body: &str) -> Content {
    content(
        sender,
        timestamp,
        ContentBody::EditMessage(EditMessage {
            target_sent_timestamp: Some(target),
            data_message: Some(data(Some(body))),
        }),
    )
}

fn receipt(kind: Option<i32>, timestamps: Vec<u64>) -> Option<Content> {
    Some(content(ALICE, 1, ContentBody::ReceiptMessage(ReceiptMessage {
        kind,
        timestamp: timestamps,
    })))
}

fn bodies(messages: &Vec<Content>) -> Vec<String> {
    messages.iter().map(message_body).collect()
}

// ── Bodies ───────────────────────────────────────────────────────────────────

#[test]
fn bodies_of_all_kinds() {
    assert_eq!(message_body(&text(ALICE, 1, "hi")), "hi");
    let mut file = data(Some(""));
    file.attachments.push(pointer(None));
    file.sticker = true;
    assert_eq!(message_body(&content(ALICE, 1, ContentBody::DataMessage(file))), "Attachment");
    let mut sticker = data(None);
    sticker.sticker = true;
    assert_eq!(message_body(&content(ALICE, 1, ContentBody::DataMessage(sticker))), "Sticker");
    assert_eq!(message_body(&content(ALICE, 1, ContentBody::CallMessage)), "Call");
    assert_eq!(message_body(&content(ALICE, 1, ContentBody::Other)), "");
    let sent = ContentBody::SynchronizeMessage {
        sent: Some(Sent { message: Some(data(Some("mine"))), edit_message: None }),
    };
    assert_eq!(message_body(&content(OWN, 1, sent)), "mine");
    let nothing = ContentBody::SynchronizeMessage { sent: None };
    assert_eq!(message_body(&content(OWN, 1, nothing)), "");
}

#[test]
fn previews_and_updates() {
    assert_eq!(extract_preview(&text(ALICE, 1, "hi")), Some("hi".to_string()));
    assert_eq!(extract_preview(&text(ALICE, 1, "")), None);
    match extract_update(&text(ALICE, 7, "hi")) {
        Some(u) => {
            assert_eq!(u.thread, with_alice());
            assert_eq!(u.preview, Some("hi".to_string()));
            assert_eq!(u.ts, 7);
        }
        None => panic!("no update"),
    }
    let mut lost = text(ALICE, 7, "hi");
    lost.thread = None;
    assert!(extract_update(&lost).is_none());
    assert!(extract_update(&text(ALICE, 7, "")).is_none());
}

#[test]
fn edits_are_found_and_applied() {
    assert_eq!(extract_edit(&edit(ALICE, 9, 4, "new")), Some((4, "new".to_string())));
    assert_eq!(extract_edit(&text(ALICE, 9, "x")), None);
    let half = ContentBody::EditMessage(EditMessage {
        target_sent_timestamp: None,
        data_message: Some(data(Some("x"))),
    });
    assert_eq!(extract_edit(&content(ALICE, 9, half)), None);
    let mut c = text(ALICE, 4, "old");
    apply_edit_body(&mut c, "new");
    assert_eq!(message_body(&c), "new");
    let mut call = content(ALICE, 4, ContentBody::CallMessage);
    apply_edit_body(&mut call, "new");
    assert_eq!(message_body(&call), "Call");
}

#[test]
fn quotes_name_their_author() {
    let mut msg = data(Some("yes"));
    msg.quote = Some(Quote {
        id: Some(3),
        author_aci: None,
        author_aci_binary: Some(ALICE.to_bytes()),
        text: Some("first\nsecond".to_string()),
    });
    let quoted = content(OWN, 5, ContentBody::DataMessage(msg));
    assert_eq!(message_quote(&quoted), Some((ALICE, "first".to_string())));
    let mut by_text = data(Some("yes"));
    by_text.quote = Some(Quote {
        id: None,
        author_aci: Some("00000000-0000-0000-0000-000000000003".to_string()),
        author_aci_binary: None,
        text: None,
    });
    let quoted = content(OWN, 5, ContentBody::DataMessage(by_text));
    assert_eq!(message_quote(&quoted), Some((BOB, String::new())));
    let mut broken = data(Some("yes"));
    broken.quote = Some(Quote {
        id: None,
        author_aci: Some("00000000-0000-0000-0000-000000000003".to_string()),
        author_aci_binary: Some(vec![1, 2, 3]),
        text: None,
    });
    assert_eq!(message_quote(&content(OWN, 5, ContentBody::DataMessage(broken))), None);
    assert_eq!(message_quote(&text(OWN, 5, "x")), None);
}

// ── History ──────────────────────────────────────────────────────────────────

#[test]
fn history_is_oldest_first_without_edits_and_reactions() {
    let records = vec![
        Some(edit(ALICE, 9, 1, "newest")),
        Some(reaction(BOB, 8, "👍", false, 1)),
        None,
        Some(text(BOB, 6, "second")),
        Some(edit(ALICE, 5, 1, "newer")),
        Some(text(ALICE, 2, "")),
        Some(text(ALICE, 1, "first")),
    ];
    let (messages, reactions) = load_messages_and_reactions(records);
    assert_eq!(bodies(&messages), vec!["newest", "second"]);
    assert_eq!(messages[0].timestamp, 1);
    assert!(reactions.contains(1, "👍", BOB));
    assert!(!reactions.contains(1, "👍", ALICE));
    let only = load_messages(vec![Some(text(ALICE, 1, "first"))]);
    assert_eq!(bodies(&only), vec!["first"]);
}

#[test]
fn a_reaction_taken_back_is_gone() {
    let records = vec![
        Some(reaction(BOB, 4, "👍", true, 1)),
        Some(reaction(ALICE, 3, "👍", false, 1)),
        Some(reaction(BOB, 2, "👍", false, 1)),
        Some(text(ALICE, 1, "first")),
    ];
    let (_, reactions) = load_messages_and_reactions(records);
    assert!(!reactions.contains(1, "👍", BOB));
    assert!(reactions.contains(1, "👍", ALICE));
    let all_back = vec![
        Some(reaction(BOB, 3, "👍", true, 1)),
        Some(reaction(BOB, 2, "👍", false, 1)),
    ];
    let (_, reactions) = load_messages_and_reactions(all_back);
    assert!(reactions.get(1).is_none());
    assert_eq!(reaction_hint(&reactions, 1), "(no reactions)");
}

#[test]
fn reactions_are_counted_in_order() {
    let mut map = ReactionMap::new();
    map.set(7, "b", ALICE, true);
    map.set(7, "a", ALICE, true);
    map.set(7, "a", BOB, true);
    map.set(7, "a", BOB, true);
    assert_eq!(reaction_hint(&map, 7), "2xa  1xb");
    match map.get(7) {
        Some(v) => assert_eq!(fmt_reaction_pairs(v), vec!["2xa", "1xb"]),
        None => panic!("no reactions"),
    }
    assert_eq!(format_reactions(map.get(7)), Some("[2xa, 1xb]".to_string()));
    assert_eq!(format_reactions(map.get(8)), None);
    map.set(7, "b", ALICE, false);
    assert_eq!(reaction_hint(&map, 7), "2xa");
}

#[test]
fn receipts_tell_delivered_from_read() {
    let records = vec![
        receipt(Some(0), vec![1, 2]),
        receipt(Some(1), vec![3]),
        receipt(Some(2), vec![4]),
        receipt(None, vec![5]),
        None,
    ];
    let (delivered, read) = load_receipt_state(&records);
    assert_eq!(delivered, HashSet::from([1, 2, 3]));
    assert_eq!(read, HashSet::from([3]));
}

#[test]
fn new_messages_of_others_are_acknowledged() {
    let messages = vec![text(ALICE, 1, "a"), text(OWN, 2, "b"), text(ALICE, 3, "c")];
    assert_eq!(timestamps_to_ack(&messages, Some(OWN), &HashSet::new()), vec![1, 3]);
    assert_eq!(timestamps_to_ack(&messages, Some(OWN), &HashSet::from([1])), vec![3]);
    assert_eq!(timestamps_to_ack(&messages, None, &HashSet::new()), vec![1, 2, 3]);
    assert_eq!(known_timestamps(&messages), HashSet::from([1, 2, 3]));
}

#[test]
fn the_last_message_gives_preview_and_time() {
    let records = vec![receipt(Some(0), vec![]), Some(text(ALICE, 8, "x")), Some(text(ALICE, 7, "y"))];
    assert_eq!(last_message(&records), (Some("x".to_string()), 1));
    assert_eq!(last_message(&Vec::new()), (None, 0));
    let mut many: Vec<Option<Content>> = Vec::new();
    for i in 0..50u64 {
        many.push(Some(content(ALICE, 100 - i, ContentBody::Other)));
    }
    many.push(Some(text(ALICE, 1, "too far")));
    assert_eq!(last_message(&many), (None, 100));
}

// ── Sending ──────────────────────────────────────────────────────────────────

fn sent(out: &Outgoing) -> &DataMessage {
    match &out.body {
        ContentBody::DataMessage(m) => m,
        _ => panic!("no message"),
    }
}

fn stored(out: Outgoing) -> Content {
    Content { sender: OWN, timestamp: out.timestamp, thread: Some(out.thread), body: out.body }
}

#[test]
fn a_text_is_sent_and_read() {
    let out = send_to_thread(with_alice(), "hello".to_string(), Vec::new(), 0, 55);
    assert_eq!(out.thread, with_alice());
    assert_eq!(sent(&out).timestamp, Some(55));
    assert!(sent(&out).group_v2.is_none());
    assert_eq!(message_body(&stored(out)), "hello");
    let file = send_to_thread(with_alice(), String::new(), vec![pointer(None)], 0, 55);
    assert_eq!(sent(&file).body, None);
    assert_eq!(sent(&file).attachments.len(), 1);
}

#[test]
fn messages_to_a_group_name_the_group() {
    let out = send_to_thread(family(), "hello".to_string(), Vec::new(), 12, 55);
    match &sent(&out).group_v2 {
        Some(ctx) => {
            assert_eq!(ctx.master_key, GroupKey { high: 5, low: 6 });
            assert_eq!(ctx.revision, 12);
        }
        None => panic!("no group"),
    }
    let changed = send_edit(family(), 4, "new".to_string(), 13, 56);
    match &changed.body {
        ContentBody::EditMessage(e) => match &e.data_message {
            Some(m) => assert_eq!(m.group_v2.as_ref().map(|c| c.revision), Some(13)),
            None => panic!("no message"),
        },
        _ => panic!("no edit"),
    }
    assert_eq!(group_request(GroupKey { high: 5, low: 6 }).revision, 0);
}

#[test]
fn a_reaction_is_sent_and_read() {
    let out = send_reaction(with_alice(), "👋".to_string(), 7, ALICE, false, 0, 9);
    match &sent(&out).reaction {
        Some(r) => {
            assert_eq!(
                r.target_author_aci,
                Some("00000000-0000-0000-0000-000000000002".to_string())
            );
            assert_eq!(r.target_author_aci_binary, Some(ALICE.to_bytes()));
            assert_eq!(r.remove, Some(false));
        }
        None => panic!("no reaction"),
    }
    let (_, reactions) = load_messages_and_reactions(vec![Some(stored(out))]);
    assert!(reactions.contains(7, "👋", OWN));
}

#[test]
fn an_edit_is_sent_and_read() {
    let out = send_edit(with_alice(), 7, "new".to_string(), 0, 9);
    assert_eq!(extract_edit(&stored(out)), Some((7, "new".to_string())));
}

#[test]
fn a_reply_is_sent_and_read() {
    let quoted = QuoteInfo { ts: 7, author: ALICE, text: "Sure,\nsounds good!".to_string() };
    let out = send_reply(with_alice(), "Perfect".to_string(), quoted, Vec::new(), 0, 9);
    assert_eq!(sent(&out).quote.as_ref().and_then(|q| q.id), Some(7));
    let c = stored(out);
    assert_eq!(message_body(&c), "Perfect");
    assert_eq!(message_quote(&c), Some((ALICE, "Sure,".to_string())));
}

#[test]
fn deletions_and_receipts_are_sent() {
    let out = delete_for_everyone(with_alice(), 7, 0, 9);
    assert_eq!(sent(&out).delete, Some(7));
    assert_eq!(sent(&out).body, None);
    match send_read_receipt(with_alice(), vec![1, 2]) {
        Some((to, r)) => {
            assert_eq!(to, ServiceId::Aci(ALICE));
            assert_eq!(r.kind, Some(1));
            assert_eq!(r.timestamp, vec![1, 2]);
        }
        None => panic!("no receipt"),
    }
    assert!(send_read_receipt(with_alice(), Vec::new()).is_none());
    assert!(send_read_receipt(family(), vec![1]).is_none());
}
