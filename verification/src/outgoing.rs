//! Messages as they are handed to the service.

use vstd::prelude::*;

use crate::content::{
    body_of, data_message_of, edit_of, first_line_of, quote_of, AttachmentPointer, Content,
    ContentBody, DataMessage, EditMessage, GroupContextV2, Quote, Reaction, ReceiptMessage,
};
use crate::history::{event_of, is_shown};
use crate::ids::{
    be_value, law_uuid_text_reads_back, lemma_u128_bytes, u128_bytes, uuid_of_text, uuid_text,
    GroupKey, ServiceId, Thread, Uuid,
};
use crate::reactions::Reacting;
use crate::roster::opt_text;

verus! {

/// A message with the thread that it goes to and the time that it is sent at.
pub struct Outgoing {
    pub thread: Thread,
    pub body: ContentBody,
    pub timestamp: u64,
}

/// The text of a message; none if it is empty.
pub open spec fn unless_empty(s: Seq<char>) -> Option<Seq<char>> {
    if s.len() > 0 {
        Some(s)
    } else {
        None
    }
}

/// What every message to a group names; nothing for a message to a contact.
pub open spec fn context_of(thread: Thread, revision: u32) -> Option<GroupContextV2> {
    match thread {
        Thread::Group(key) => Some(GroupContextV2 { master_key: key, revision }),
        Thread::Contact(_) => None,
    }
}

/// A message with nothing in it.
fn blank_message(ts: u64) -> (r: DataMessage)
    ensures
        r.body is None,
        r.timestamp == Some(ts),
        r.attachments@ == Seq::<AttachmentPointer>::empty(),
        !r.sticker,
        r.reaction is None,
        r.quote is None,
        r.delete is None,
        r.group_v2 is None,
{
    DataMessage {
        body: None,
        timestamp: Some(ts),
        attachments: Vec::new(),
        sticker: false,
        reaction: None,
        quote: None,
        delete: None,
        group_v2: None,
    }
}

/// A message as it goes to a thread: to a group, it names the group and its
/// revision; else it is as it was.
pub open spec fn addressed(msg: DataMessage, thread: Thread, revision: u32) -> DataMessage {
    if thread is Group {
        DataMessage { group_v2: context_of(thread, revision), ..msg }
    } else {
        msg
    }
}

/// A body as it goes to a thread.
pub open spec fn addressed_body(body: ContentBody, thread: Thread, revision: u32) -> ContentBody {
    match body {
        ContentBody::DataMessage(msg) => ContentBody::DataMessage(
            addressed(msg, thread, revision),
        ),
        ContentBody::EditMessage(edit) => ContentBody::EditMessage(
            EditMessage {
                data_message: match edit.data_message {
                    Some(msg) => Some(addressed(msg, thread, revision)),
                    None => None,
                },
                ..edit
            },
        ),
        _ => body,
    }
}

/// Addresses a message or an edit to a thread; `revision` is that of the group,
/// 0 if the store does not know it.
pub fn dispatch_send_body(thread: Thread, body: ContentBody, revision: u32, ts: u64) -> (r: Outgoing)
    ensures
        r.thread == thread,
        r.body == addressed_body(body, thread, revision),
        r.timestamp == ts,
{
    let mut body = body;
    if let Thread::Group(master_key) = thread {
        let ctx = GroupContextV2 { master_key, revision };
        match &mut body {
            ContentBody::DataMessage(msg) => {
                msg.group_v2 = Some(ctx);
            },
            ContentBody::EditMessage(edit) => {
                if let Some(msg) = &mut edit.data_message {
                    msg.group_v2 = Some(ctx);
                }
            },
            _ => {},
        }
    }
    Outgoing { thread, body, timestamp: ts }
}

/// The context that the metadata of a group is asked for with.
pub fn group_request(key: GroupKey) -> (r: GroupContextV2)
    ensures
        r == (GroupContextV2 { master_key: key, revision: 0 }),
{
    GroupContextV2 { master_key: key, revision: 0 }
}

/// The message that a reply answers.
pub struct QuoteInfo {
    pub ts: u64,
    pub author: Uuid,
    pub text: String,
}

/// A request to delete a message of ours for everyone.
pub open spec fn is_deletion(
    r: Outgoing,
    thread: Thread,
    timestamp: u64,
    revision: u32,
    now: u64,
) -> bool {
    &&& r.thread == thread
    &&& r.timestamp == now
    &&& r.body matches ContentBody::DataMessage(msg) && {
        &&& msg.delete == Some(timestamp)
        &&& msg.timestamp == Some(now)
        &&& msg.group_v2 == context_of(thread, revision)
        &&& msg.body is None
        &&& msg.attachments@.len() == 0
        &&& msg.reaction is None
        &&& msg.quote is None
        &&& !msg.sticker
    }
}

/// A reaction to a message, or its removal.
pub open spec fn is_reaction(
    r: Outgoing,
    thread: Thread,
    emoji: Seq<char>,
    target_ts: u64,
    target_author: Uuid,
    remove: bool,
    revision: u32,
    now: u64,
) -> bool {
    &&& r.thread == thread
    &&& r.timestamp == now
    &&& r.body matches ContentBody::DataMessage(msg) && {
        &&& msg.reaction matches Some(x) && {
            &&& opt_text(x.emoji) == Some(emoji)
            &&& x.remove == Some(remove)
            &&& opt_text(x.target_author_aci) == Some(uuid_text(target_author))
            &&& x.target_author_aci_binary is Some
            &&& x.target_author_aci_binary->0@ == u128_bytes(target_author.value)
            &&& x.target_sent_timestamp == Some(target_ts)
        }
        &&& msg.timestamp == Some(now)
        &&& msg.group_v2 == context_of(thread, revision)
        &&& msg.body is None
        &&& msg.attachments@.len() == 0
        &&& msg.quote is None
        &&& msg.delete is None
        &&& !msg.sticker
    }
}

/// A new text for a message of ours.
pub open spec fn is_edit(
    r: Outgoing,
    thread: Thread,
    target_ts: u64,
    body: Seq<char>,
    revision: u32,
    now: u64,
) -> bool {
    &&& r.thread == thread
    &&& r.timestamp == now
    &&& r.body matches ContentBody::EditMessage(edit) && {
        &&& edit.target_sent_timestamp == Some(target_ts)
        &&& edit.data_message matches Some(msg) && {
            &&& opt_text(msg.body) == Some(body)
            &&& msg.timestamp == Some(now)
            &&& msg.group_v2 == context_of(thread, revision)
            &&& msg.attachments@.len() == 0
            &&& msg.reaction is None
            &&& msg.quote is None
            &&& msg.delete is None
            &&& !msg.sticker
        }
    }
}

/// A message with a text, attachments, or both.
pub open spec fn is_plain(
    r: Outgoing,
    thread: Thread,
    text: Seq<char>,
    attachments: Vec<AttachmentPointer>,
    revision: u32,
    now: u64,
) -> bool {
    &&& r.thread == thread
    &&& r.timestamp == now
    &&& r.body matches ContentBody::DataMessage(msg) && {
        &&& opt_text(msg.body) == unless_empty(text)
        &&& msg.attachments == attachments
        &&& msg.timestamp == Some(now)
        &&& msg.group_v2 == context_of(thread, revision)
        &&& msg.reaction is None
        &&& msg.quote is None
        &&& msg.delete is None
        &&& !msg.sticker
    }
}

/// A reply to a message.
pub open spec fn is_reply(
    r: Outgoing,
    thread: Thread,
    text: Seq<char>,
    quoted: QuoteInfo,
    attachments: Vec<AttachmentPointer>,
    revision: u32,
    now: u64,
) -> bool {
    &&& r.thread == thread
    &&& r.timestamp == now
    &&& r.body matches ContentBody::DataMessage(msg) && {
        &&& msg.quote matches Some(q) && {
            &&& q.id == Some(quoted.ts)
            &&& opt_text(q.author_aci) == Some(uuid_text(quoted.author))
            &&& q.author_aci_binary is Some
            &&& q.author_aci_binary->0@ == u128_bytes(quoted.author.value)
            &&& opt_text(q.text) == unless_empty(quoted.text@)
        }
        &&& opt_text(msg.body) == unless_empty(text)
        &&& msg.attachments == attachments
        &&& msg.timestamp == Some(now)
        &&& msg.group_v2 == context_of(thread, revision)
        &&& msg.reaction is None
        &&& msg.delete is None
        &&& !msg.sticker
    }
}

/// The request to delete a message of ours for everyone.
pub fn delete_for_everyone(thread: Thread, timestamp: u64, revision: u32, now: u64) -> (r: Outgoing)
    ensures
        is_deletion(r, thread, timestamp, revision, now),
{
    let mut msg = blank_message(now);
    msg.delete = Some(timestamp);
    dispatch_send_body(thread, ContentBody::DataMessage(msg), revision, now)
}

/// A reaction to a message, or its removal.
pub fn send_reaction(
    thread: Thread,
    emoji: String,
    target_ts: u64,
    target_author: Uuid,
    remove: bool,
    revision: u32,
    now: u64,
) -> (r: Outgoing)
    ensures
        is_reaction(r, thread, emoji@, target_ts, target_author, remove, revision, now),
{
    let mut msg = blank_message(now);
    msg.reaction = Some(
        Reaction {
            emoji: Some(emoji),
            remove: Some(remove),
            target_author_aci: Some(target_author.text()),
            target_author_aci_binary: Some(target_author.to_bytes()),
            target_sent_timestamp: Some(target_ts),
        },
    );
    dispatch_send_body(thread, ContentBody::DataMessage(msg), revision, now)
}

/// A new text for a message of ours.
pub fn send_edit(thread: Thread, target_ts: u64, body: String, revision: u32, now: u64) -> (r:
    Outgoing)
    ensures
        is_edit(r, thread, target_ts, body@, revision, now),
{
    let mut msg = blank_message(now);
    msg.body = Some(body);
    let edit = EditMessage { target_sent_timestamp: Some(target_ts), data_message: Some(msg) };
    dispatch_send_body(thread, ContentBody::EditMessage(edit), revision, now)
}

fn body_unless_empty(text: String) -> (r: Option<String>)
    ensures
        opt_text(r) == unless_empty(text@),
{
    if text.as_str().is_empty() {
        None
    } else {
        Some(text)
    }
}

/// A message with a text, attachments, or both.
pub fn send_to_thread(
    thread: Thread,
    text: String,
    attachments: Vec<AttachmentPointer>,
    revision: u32,
    now: u64,
) -> (r: Outgoing)
    ensures
        is_plain(r, thread, text@, attachments, revision, now),
{
    let mut msg = blank_message(now);
    msg.body = body_unless_empty(text);
    msg.attachments = attachments;
    dispatch_send_body(thread, ContentBody::DataMessage(msg), revision, now)
}

/// A reply to a message.
pub fn send_reply(
    thread: Thread,
    text: String,
    quoted: QuoteInfo,
    attachments: Vec<AttachmentPointer>,
    revision: u32,
    now: u64,
) -> (r: Outgoing)
    ensures
        is_reply(r, thread, text@, quoted, attachments, revision, now),
{
    let mut msg = blank_message(now);
    msg.quote = Some(
        Quote {
            id: Some(quoted.ts),
            author_aci: Some(quoted.author.text()),
            author_aci_binary: Some(quoted.author.to_bytes()),
            text: body_unless_empty(quoted.text),
        },
    );
    msg.body = body_unless_empty(text);
    msg.attachments = attachments;
    dispatch_send_body(thread, ContentBody::DataMessage(msg), revision, now)
}

/// The receipt that tells a contact which messages were read, and whom it goes
/// to; none for a group, or if there is nothing to tell.
pub fn send_read_receipt(thread: Thread, timestamps: Vec<u64>) -> (r: Option<
    (ServiceId, ReceiptMessage),
>)
    ensures
        r is Some <==> timestamps@.len() > 0 && thread is Contact,
        r matches Some(x) ==> {
            &&& thread == Thread::Contact(x.0)
            &&& x.1.kind == Some(1i32)
            &&& x.1.timestamp == timestamps
        },
{
    if timestamps.len() == 0 {
        return None;
    }
    match thread {
        Thread::Contact(sid) => Some(
            (sid, ReceiptMessage { kind: Some(1), timestamp: timestamps }),
        ),
        Thread::Group(_) => None,
    }
}

// ── What is sent is what is read ─────────────────────────────────────────────

/// A reaction that was sent is read as what was meant.
pub proof fn law_sent_reaction_is_read(
    r: Outgoing,
    content: Content,
    emoji: Seq<char>,
    target_ts: u64,
    target_author: Uuid,
    remove: bool,
    revision: u32,
)
    requires
        is_reaction(r, r.thread, emoji, target_ts, target_author, remove, revision, r.timestamp),
        content.body == r.body,
        emoji.len() > 0,
    ensures
        event_of(content) == Some(Reacting { sender: content.sender, emoji, remove, target_ts }),
{
}

/// An edit that was sent is read as what was meant.
pub proof fn law_sent_edit_is_read(
    r: Outgoing,
    content: Content,
    target_ts: u64,
    text: Seq<char>,
    revision: u32,
)
    requires
        is_edit(r, r.thread, target_ts, text, revision, r.timestamp),
        content.body == r.body,
        text.len() > 0,
    ensures
        edit_of(content) == Some((target_ts, text)),
{
}

/// A message that was sent shows its text.
pub proof fn law_sent_text_is_read(
    r: Outgoing,
    content: Content,
    text: Seq<char>,
    attachments: Vec<AttachmentPointer>,
    revision: u32,
)
    requires
        is_plain(r, r.thread, text, attachments, revision, r.timestamp),
        content.body == r.body,
        text.len() > 0,
    ensures
        body_of(content) == text,
        is_shown(content),
{
}

/// A reply that was sent shows its text, and quotes the author and the first
/// line of the message that it answers.
pub proof fn law_sent_reply_is_read(
    r: Outgoing,
    content: Content,
    text: Seq<char>,
    quoted: QuoteInfo,
    attachments: Vec<AttachmentPointer>,
    revision: u32,
)
    requires
        is_reply(r, r.thread, text, quoted, attachments, revision, r.timestamp),
        content.body == r.body,
        text.len() > 0,
    ensures
        body_of(content) == text,
        quote_of(content) == Some((quoted.author, first_line_of(quoted.text@))),
{
    lemma_u128_bytes(quoted.author.value);
}

/// Whatever is sent goes to its thread, now; a message to a group names the group
/// and its revision, one to a contact names none.
pub proof fn law_sent_messages_are_addressed(
    r: Outgoing,
    read: Content,
    thread: Thread,
    revision: u32,
    now: u64,
    ts: u64,
    text: Seq<char>,
    who: Uuid,
    remove: bool,
    quoted: QuoteInfo,
    attachments: Vec<AttachmentPointer>,
)
    requires
        is_deletion(r, thread, ts, revision, now) || is_reaction(
            r,
            thread,
            text,
            ts,
            who,
            remove,
            revision,
            now,
        ) || is_edit(r, thread, ts, text, revision, now) || is_plain(
            r,
            thread,
            text,
            attachments,
            revision,
            now,
        ) || is_reply(r, thread, text, quoted, attachments, revision, now),
        read.body == r.body,
    ensures
        r.thread == thread,
        r.timestamp == now,
        ({
            let msg = match r.body {
                ContentBody::EditMessage(edit) => edit.data_message,
                _ => data_message_of(read),
            };
            &&& msg is Some
            &&& msg->0.timestamp == Some(now)
            &&& thread matches Thread::Group(key) ==> msg->0.group_v2 is Some
                && msg->0.group_v2->0.master_key == key && msg->0.group_v2->0.revision == revision
            &&& thread is Contact ==> msg->0.group_v2 is None
        }),
{
}

/// A deletion names the message by its time stamp and brings nothing else; nothing
/// but a deletion deletes.
pub proof fn law_sent_deletion_names_the_message(
    r: Outgoing,
    read: Content,
    thread: Thread,
    ts: u64,
    revision: u32,
    now: u64,
)
    requires
        is_deletion(r, thread, ts, revision, now),
        read.body == r.body,
    ensures
        data_message_of(read) is Some,
        data_message_of(read)->0.delete == Some(ts),
        body_of(read).len() == 0,
        edit_of(read) is None,
        event_of(read) is None,
        quote_of(read) is None,
{
}

/// A reaction names the author of its target in both forms, and each reads back.
pub proof fn law_sent_reaction_names_the_author(
    r: Outgoing,
    thread: Thread,
    emoji: Seq<char>,
    target_ts: u64,
    target_author: Uuid,
    remove: bool,
    revision: u32,
    now: u64,
)
    requires
        is_reaction(r, thread, emoji, target_ts, target_author, remove, revision, now),
    ensures
        r.body is DataMessage,
        ({
            let msg = r.body->DataMessage_0;
            let x = msg.reaction->0;
            &&& msg.reaction is Some
            &&& uuid_of_text(x.target_author_aci->0@) == Some(target_author)
            &&& be_value(x.target_author_aci_binary->0@) == target_author.value
            &&& x.target_author_aci_binary->0@.len() == 16
            &&& msg.delete is None
            &&& msg.quote is None
            &&& msg.body is None
            &&& msg.attachments@.len() == 0
        }),
{
    law_uuid_text_reads_back(target_author);
    lemma_u128_bytes(target_author.value);
}

/// A reply names the message that it answers by its time stamp, its author in both
/// forms, and its whole text.
pub proof fn law_sent_reply_names_the_message(
    r: Outgoing,
    thread: Thread,
    text: Seq<char>,
    quoted: QuoteInfo,
    attachments: Vec<AttachmentPointer>,
    revision: u32,
    now: u64,
)
    requires
        is_reply(r, thread, text, quoted, attachments, revision, now),
    ensures
        r.body is DataMessage,
        ({
            let msg = r.body->DataMessage_0;
            let q = msg.quote->0;
            &&& msg.quote is Some
            &&& q.id == Some(quoted.ts)
            &&& uuid_of_text(q.author_aci->0@) == Some(quoted.author)
            &&& be_value(q.author_aci_binary->0@) == quoted.author.value
            &&& quoted.text@.len() > 0 ==> q.text is Some && q.text->0@ == quoted.text@
            &&& quoted.text@.len() == 0 ==> q.text is None
            &&& text.len() > 0 ==> msg.body is Some && msg.body->0@ == text
            &&& text.len() == 0 ==> msg.body is None
            &&& msg.attachments == attachments
            &&& msg.reaction is None
            &&& msg.delete is None
        }),
{
    law_uuid_text_reads_back(quoted.author);
    lemma_u128_bytes(quoted.author.value);
}

/// A message of its own brings its text, if it has one, and its attachments, and
/// nothing else.
pub proof fn law_sent_text_brings_its_files(
    r: Outgoing,
    thread: Thread,
    text: Seq<char>,
    attachments: Vec<AttachmentPointer>,
    revision: u32,
    now: u64,
)
    requires
        is_plain(r, thread, text, attachments, revision, now),
    ensures
        r.body is DataMessage,
        ({
            let msg = r.body->DataMessage_0;
            &&& text.len() > 0 ==> msg.body is Some && msg.body->0@ == text
            &&& text.len() == 0 ==> msg.body is None
            &&& msg.attachments == attachments
            &&& msg.quote is None
            &&& msg.reaction is None
            &&& msg.delete is None
            &&& !msg.sticker
        }),
{
}

/// Addressing a body changes nothing but the group that it names, and that only
/// where it goes to a group.
pub proof fn law_addressing_keeps_the_rest(body: ContentBody, thread: Thread, revision: u32)
    ensures
        thread is Contact ==> addressed_body(body, thread, revision) == body,
        body matches ContentBody::DataMessage(msg) ==> thread matches Thread::Group(key)
            ==> addressed_body(body, thread, revision) == ContentBody::DataMessage(
            DataMessage {
                group_v2: Some(GroupContextV2 { master_key: key, revision }),
                ..msg
            },
        ),
        body matches ContentBody::EditMessage(edit) ==> thread is Group && edit.data_message is Some
            ==> addressed_body(body, thread, revision) == ContentBody::EditMessage(
            EditMessage {
                target_sent_timestamp: edit.target_sent_timestamp,
                data_message: Some(
                    DataMessage {
                        group_v2: Some(
                            GroupContextV2 { master_key: thread->Group_0, revision },
                        ),
                        ..edit.data_message->0
                    },
                ),
            },
        ),
        body is ReceiptMessage || body is CallMessage || body is Other
            || body is SynchronizeMessage ==> addressed_body(body, thread, revision) == body,
{
}

/// A sent edit names the message that it changes and brings the new text and nothing else.
pub proof fn law_sent_edit_brings_only_the_text(
    r: Outgoing,
    thread: Thread,
    target_ts: u64,
    text: Seq<char>,
    revision: u32,
    now: u64,
)
    requires
        is_edit(r, thread, target_ts, text, revision, now),
    ensures
        r.thread == thread,
        r.timestamp == now,
        r.body is EditMessage,
        ({
            let edit = r.body->EditMessage_0;
            let msg = edit.data_message->0;
            &&& edit.target_sent_timestamp == Some(target_ts)
            &&& edit.data_message is Some
            &&& msg.body is Some
            &&& msg.body->0@ == text
            &&& msg.timestamp == Some(now)
            &&& msg.attachments@.len() == 0
            &&& msg.reaction is None
            &&& msg.quote is None
            &&& msg.delete is None
            &&& !msg.sticker
        }),
{
}

} // verus!
