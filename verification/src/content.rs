//! Messages as the store holds them, and what is read from them.

use vstd::prelude::*;

use crate::ids::{uuid_of_text, GroupKey, Thread, Uuid};
use crate::ids::be_value;
use crate::text::{text_lines, text_lines_of};

verus! {

/// Where an attachment can be fetched.
pub struct AttachmentPointer {
    pub file_name: Option<String>,
    pub flags: Option<u32>,
    /// The pointer as the service encodes it.
    pub raw: Vec<u8>,
}

/// A reaction to a message, or its removal.
pub struct Reaction {
    pub emoji: Option<String>,
    pub remove: Option<bool>,
    pub target_author_aci: Option<String>,
    pub target_author_aci_binary: Option<Vec<u8>>,
    pub target_sent_timestamp: Option<u64>,
}

/// The message that a reply quotes.
pub struct Quote {
    pub id: Option<u64>,
    pub author_aci: Option<String>,
    pub author_aci_binary: Option<Vec<u8>>,
    pub text: Option<String>,
}

/// The group that a message is sent to.
pub struct GroupContextV2 {
    pub master_key: GroupKey,
    pub revision: u32,
}

/// The contents of an ordinary message.
pub struct DataMessage {
    pub body: Option<String>,
    pub timestamp: Option<u64>,
    pub attachments: Vec<AttachmentPointer>,
    pub sticker: bool,
    pub reaction: Option<Reaction>,
    pub quote: Option<Quote>,
    /// The time stamp of a message to be deleted.
    pub delete: Option<u64>,
    pub group_v2: Option<GroupContextV2>,
}

/// A new text for a message sent earlier.
pub struct EditMessage {
    pub target_sent_timestamp: Option<u64>,
    pub data_message: Option<DataMessage>,
}

/// What another device of this account has sent.
pub struct Sent {
    pub message: Option<DataMessage>,
    pub edit_message: Option<EditMessage>,
}

/// A receipt for messages of ours.
pub struct ReceiptMessage {
    /// 0 for delivery, 1 for reading.
    pub kind: Option<i32>,
    pub timestamp: Vec<u64>,
}

pub enum ContentBody {
    DataMessage(DataMessage),
    SynchronizeMessage { sent: Option<Sent> },
    EditMessage(EditMessage),
    CallMessage,
    ReceiptMessage(ReceiptMessage),
    Other,
}

/// A message as the store holds it.
pub struct Content {
    pub sender: Uuid,
    pub timestamp: u64,
    /// The conversation that the message belongs to, if it names one.
    pub thread: Option<Thread>,
    pub body: ContentBody,
}

/// What comes from the service.
pub enum Received {
    /// All that was waiting has come.
    QueueEmpty,
    /// A new contact list was stored.
    Contacts,
    Content(Content),
}

/// What a new message changes in the list of threads.
pub struct MessageUpdate {
    pub thread: Thread,
    pub preview: Option<String>,
    pub ts: u64,
}

// ── Bodies ───────────────────────────────────────────────────────────────────

/// The text that is shown for an ordinary message.
pub open spec fn data_body_of(msg: DataMessage) -> Seq<char> {
    if msg.body is Some && msg.body->0@.len() > 0 {
        msg.body->0@
    } else if msg.attachments@.len() > 0 {
        "Attachment"@
    } else if msg.sticker {
        "Sticker"@
    } else {
        Seq::empty()
    }
}

/// The ordinary message in a content: received, or sent by another device of
/// ours.
pub open spec fn data_message_of(content: Content) -> Option<DataMessage> {
    match content.body {
        ContentBody::DataMessage(msg) => Some(msg),
        ContentBody::SynchronizeMessage { sent: Some(sent) } => sent.message,
        _ => None,
    }
}

/// The text that is shown for a content; empty for what is not shown.
pub open spec fn body_of(content: Content) -> Seq<char> {
    match data_message_of(content) {
        Some(msg) => data_body_of(msg),
        None => if content.body is CallMessage {
            "Call"@
        } else {
            Seq::empty()
        },
    }
}

/// The text that is shown for an ordinary message.
pub fn data_message_body(msg: &DataMessage) -> (r: String)
    ensures
        r@ == data_body_of(*msg),
{
    if let Some(text) = &msg.body {
        if !text.as_str().is_empty() {
            return text.clone();
        }
    }
    if !msg.attachments.is_empty() {
        return "Attachment".to_owned();
    }
    if msg.sticker {
        return "Sticker".to_owned();
    }
    String::new()
}

/// The ordinary message in a content, if it holds one.
pub fn data_message(content: &Content) -> (r: Option<&DataMessage>)
    ensures
        r is Some <==> data_message_of(*content) is Some,
        r matches Some(msg) ==> data_message_of(*content) == Some(*msg),
{
    match &content.body {
        ContentBody::DataMessage(msg) => Some(msg),
        ContentBody::SynchronizeMessage { sent: Some(sent) } => match &sent.message {
            Some(msg) => Some(msg),
            None => None,
        },
        _ => None,
    }
}

/// The text that is shown for a content; empty for what is not shown.
pub fn message_body(content: &Content) -> (r: String)
    ensures
        r@ == body_of(*content),
{
    match data_message(content) {
        Some(msg) => data_message_body(msg),
        None => match &content.body {
            ContentBody::CallMessage => "Call".to_owned(),
            _ => String::new(),
        },
    }
}

/// The text shown for a content in the list of threads, if any.
pub fn extract_preview(content: &Content) -> (r: Option<String>)
    ensures
        r is Some <==> body_of(*content).len() > 0,
        r matches Some(p) ==> p@ == body_of(*content),
{
    let body = message_body(content);
    if body.as_str().is_empty() {
        None
    } else {
        Some(body)
    }
}

/// What a content changes in the list of threads. Contents without a text to
/// show, such as receipts, change nothing.
pub fn extract_update(content: &Content) -> (r: Option<MessageUpdate>)
    ensures
        r is Some <==> content.thread is Some && body_of(*content).len() > 0,
        r matches Some(u) ==> {
            &&& content.thread == Some(u.thread)
            &&& u.preview is Some
            &&& u.preview->0@ == body_of(*content)
            &&& u.ts == content.timestamp
        },
{
    let thread = match content.thread {
        Some(t) => t,
        None => return None,
    };
    match extract_preview(content) {
        None => None,
        Some(p) => Some(MessageUpdate { thread, preview: Some(p), ts: content.timestamp }),
    }
}

// ── Edits ────────────────────────────────────────────────────────────────────

/// The edit in a content: received, or made on another device of ours.
pub open spec fn edit_message_of(content: Content) -> Option<EditMessage> {
    match content.body {
        ContentBody::EditMessage(edit) => Some(edit),
        ContentBody::SynchronizeMessage { sent: Some(sent) } => sent.edit_message,
        _ => None,
    }
}

/// The time stamp of the edited message and its new text. An edit that lacks
/// either its target or its message is none.
pub open spec fn edit_of(content: Content) -> Option<(u64, Seq<char>)> {
    match edit_message_of(content) {
        Some(edit) => match (edit.target_sent_timestamp, edit.data_message) {
            (Some(ts), Some(msg)) => Some((ts, data_body_of(msg))),
            _ => None,
        },
        None => None,
    }
}

fn edit_parts(edit: &EditMessage) -> (r: Option<(u64, String)>)
    ensures
        r is Some <==> edit.target_sent_timestamp is Some && edit.data_message is Some,
        r matches Some(e) ==> edit.target_sent_timestamp == Some(e.0) && e.1@ == data_body_of(
            edit.data_message->0,
        ),
{
    match (&edit.target_sent_timestamp, &edit.data_message) {
        (Some(ts), Some(msg)) => Some((*ts, data_message_body(msg))),
        _ => None,
    }
}

/// The time stamp of the edited message and its new text, if the content is an
/// edit.
pub fn extract_edit(content: &Content) -> (r: Option<(u64, String)>)
    ensures
        (match r {
            Some(e) => edit_of(*content) == Some((e.0, e.1@)),
            None => edit_of(*content) is None,
        }),
{
    match &content.body {
        ContentBody::EditMessage(edit) => edit_parts(edit),
        ContentBody::SynchronizeMessage { sent: Some(sent) } => match &sent.edit_message {
            Some(edit) => edit_parts(edit),
            None => None,
        },
        _ => None,
    }
}

/// Whether two messages differ at most in their text, which is now `text`.
pub open spec fn is_data_edited(after: DataMessage, before: DataMessage, text: Seq<char>) -> bool {
    &&& after.body is Some
    &&& after.body->0@ == text
    &&& after.timestamp == before.timestamp
    &&& after.attachments == before.attachments
    &&& after.sticker == before.sticker
    &&& after.reaction == before.reaction
    &&& after.quote == before.quote
    &&& after.delete == before.delete
    &&& after.group_v2 == before.group_v2
}

/// Whether `after` is `before` with its text replaced. A content without an
/// ordinary message stays as it is.
pub open spec fn is_edited(after: Content, before: Content, text: Seq<char>) -> bool {
    &&& after.sender == before.sender
    &&& after.timestamp == before.timestamp
    &&& after.thread == before.thread
    &&& match before.body {
        ContentBody::DataMessage(msg) => after.body is DataMessage && is_data_edited(
            after.body->DataMessage_0,
            msg,
            text,
        ),
        ContentBody::SynchronizeMessage { sent: Some(Sent { message: Some(msg), edit_message }) } => {
            &&& after.body is SynchronizeMessage
            &&& after.body->sent is Some
            &&& after.body->sent->0.message is Some
            &&& is_data_edited(after.body->sent->0.message->0, msg, text)
            &&& after.body->sent->0.edit_message == edit_message
        },
        _ => after.body == before.body,
    }
}

/// Replaces the text of an ordinary message.
pub fn apply_edit_body(content: &mut Content, new_body: &str)
    ensures
        is_edited(*final(content), *old(content), new_body@),
{
    match &mut content.body {
        ContentBody::DataMessage(msg) => {
            msg.body = Some(new_body.to_owned());
        },
        ContentBody::SynchronizeMessage { sent: Some(sent) } => {
            if let Some(msg) = &mut sent.message {
                msg.body = Some(new_body.to_owned());
            }
        },
        _ => {},
    }
}

/// An edited message shows its new text; what is no ordinary message shows what it
/// did.
pub proof fn law_edited_message_shows_new_text(after: Content, before: Content, text: Seq<char>)
    requires
        is_edited(after, before, text),
    ensures
        data_message_of(before) is Some && text.len() > 0 ==> body_of(after) == text,
        data_message_of(before) is None ==> body_of(after) == body_of(before),
{
}

// ── Quotes ───────────────────────────────────────────────────────────────────

/// The first line of a text; empty for a text without lines.
pub open spec fn first_line_of(s: Seq<char>) -> Seq<char> {
    if text_lines_of(s).len() > 0 {
        text_lines_of(s)[0]
    } else {
        Seq::empty()
    }
}

/// The author that a quote names: by the binary form if there is one, else by
/// the text form.
pub open spec fn quote_author(q: Quote) -> Option<Uuid> {
    match q.author_aci_binary {
        Some(bytes) => if bytes@.len() == 16 {
            Some(Uuid { value: be_value(bytes@) as u128 })
        } else {
            None
        },
        None => match q.author_aci {
            Some(s) => uuid_of_text(s@),
            None => None,
        },
    }
}

/// The author and the first line of the message that a received message
/// quotes.
pub open spec fn quote_of(content: Content) -> Option<(Uuid, Seq<char>)> {
    match content.body {
        ContentBody::DataMessage(msg) => match msg.quote {
            Some(q) => match quote_author(q) {
                Some(author) => Some(
                    (
                        author,
                        match q.text {
                            Some(t) => first_line_of(t@),
                            None => Seq::empty(),
                        },
                    ),
                ),
                None => None,
            },
            None => None,
        },
        _ => None,
    }
}

fn first_line(s: &str) -> (r: String)
    ensures
        r@ == first_line_of(s@),
{
    let lines = text_lines(s);
    if lines.len() > 0 {
        proof {
            assert(crate::text::texts(lines@)[0] == lines@[0]@);
        }
        lines[0].clone()
    } else {
        String::new()
    }
}

/// The author and the first line of the message that a received message
/// quotes, if any.
pub fn message_quote(content: &Content) -> (r: Option<(Uuid, String)>)
    ensures
        (match r {
            Some(q) => quote_of(*content) == Some((q.0, q.1@)),
            None => quote_of(*content) is None,
        }),
{
    let quote = match &content.body {
        ContentBody::DataMessage(msg) => match &msg.quote {
            Some(q) => q,
            None => return None,
        },
        _ => return None,
    };
    let author = match &quote.author_aci_binary {
        Some(bytes) => Uuid::from_slice(bytes),
        None => match &quote.author_aci {
            Some(s) => Uuid::parse_str(s.as_str()),
            None => None,
        },
    };
    let author = match author {
        Some(a) => a,
        None => return None,
    };
    let text = match &quote.text {
        Some(t) => first_line(t.as_str()),
        None => String::new(),
    };
    Some((author, text))
}

// ── Laws ─────────────────────────────────────────────────────────────────────

/// A message shows its text; without one it shows that it has attachments, else
/// that it is a sticker, else nothing. It is the same whether the message was
/// received or sent by another device of ours.
pub proof fn law_message_shows_its_text(c: Content, msg: DataMessage, edit: Option<EditMessage>)
    requires
        c.body == ContentBody::DataMessage(msg) || c.body == (ContentBody::SynchronizeMessage {
            sent: Some(Sent { message: Some(msg), edit_message: edit }),
        }),
    ensures
        msg.body matches Some(t) ==> t@.len() > 0 ==> body_of(c) == t@,
        (msg.body is None || msg.body->0@.len() == 0) && msg.attachments@.len() > 0 ==> body_of(c)
            == "Attachment"@,
        (msg.body is None || msg.body->0@.len() == 0) && msg.attachments@.len() == 0 && msg.sticker
            ==> body_of(c) == "Sticker"@,
        (msg.body is None || msg.body->0@.len() == 0) && msg.attachments@.len() == 0
            && !msg.sticker ==> body_of(c).len() == 0,
        data_body_of(msg) == body_of(c),
        data_message_of(c) == Some(msg),
{
}

/// A call is shown as such; a receipt, an edit, and what another device sent
/// without a message show nothing.
pub proof fn law_other_contents_show_nothing(c: Content)
    ensures
        c.body is CallMessage ==> body_of(c) == "Call"@,
        c.body is ReceiptMessage || c.body is EditMessage || c.body is Other ==> body_of(c).len()
            == 0,
        c.body == (ContentBody::SynchronizeMessage { sent: None }) ==> body_of(c).len() == 0,
        c.body matches ContentBody::SynchronizeMessage { sent: Some(sent) } ==> sent.message is None
            ==> body_of(c).len() == 0,
        c.body is CallMessage || c.body is ReceiptMessage || c.body is EditMessage
            || c.body is Other ==> data_message_of(c) is None,
{
}

/// An edit counts the same whether it was received or made on another device of
/// ours: it names the message with its time stamp, and gives it the text that its
/// own message would show.
pub proof fn law_edits_count_on_every_device(
    received: Content,
    elsewhere: Content,
    plain: Content,
    edit: EditMessage,
    message: Option<DataMessage>,
    ts: u64,
    msg: DataMessage,
)
    requires
        received.body == ContentBody::EditMessage(edit),
        elsewhere.body == (ContentBody::SynchronizeMessage {
            sent: Some(Sent { message, edit_message: Some(edit) }),
        }),
        plain.body == ContentBody::DataMessage(msg),
        edit.target_sent_timestamp == Some(ts),
        edit.data_message == Some(msg),
    ensures
        edit_of(received) == Some((ts, body_of(plain))),
        edit_of(elsewhere) == Some((ts, body_of(plain))),
{
}

/// Nothing else is an edit: no received message, call or receipt, nothing that
/// another device sent without an edit, and no edit without a target or a message.
pub proof fn law_nothing_else_is_an_edit(c: Content)
    ensures
        c.body is DataMessage || c.body is CallMessage || c.body is ReceiptMessage
            || c.body is Other ==> edit_of(c) is None,
        c.body matches ContentBody::SynchronizeMessage { sent: Some(sent) } ==> (
        sent.edit_message is None || sent.edit_message->0.target_sent_timestamp is None
            || sent.edit_message->0.data_message is None) ==> edit_of(c) is None,
        c.body == (ContentBody::SynchronizeMessage { sent: None }) ==> edit_of(c) is None,
        c.body matches ContentBody::EditMessage(edit) ==> (edit.target_sent_timestamp is None
            || edit.data_message is None) ==> edit_of(c) is None,
{
}

/// An edit changes the text of a message and nothing else: not its sender, its
/// time, its thread, its attachments, its quote or its reaction.
pub proof fn law_edit_keeps_the_rest(after: Content, before: Content, text: Seq<char>)
    requires
        is_edited(after, before, text),
    ensures
        after.sender == before.sender,
        after.timestamp == before.timestamp,
        after.thread == before.thread,
        quote_of(after) == quote_of(before),
        edit_of(after) == edit_of(before),
        data_message_of(after) is Some <==> data_message_of(before) is Some,
        data_message_of(before) is Some ==> {
            let a = data_message_of(after)->0;
            let b = data_message_of(before)->0;
            a.attachments == b.attachments && a.reaction == b.reaction && a.quote == b.quote
                && a.sticker == b.sticker && a.body is Some && a.body->0@ == text
        },
        data_message_of(before) is None ==> after == before,
{
}

/// A quote names its author by the binary form, if there is one, and shows the
/// first line of the quoted text: what stands before its first line feed.
pub proof fn law_quote_shows_author_and_first_line(
    c: Content,
    msg: DataMessage,
    q: Quote,
    first: Seq<char>,
    rest: Seq<char>,
)
    requires
        c.body == ContentBody::DataMessage(msg),
        msg.quote == Some(q),
        q.text is Some,
        first.len() > 0,
        !first.contains('\n'),
        !first.contains('\r'),
        q.text->0@ == first || q.text->0@ == first.push('\n') + rest || q.text->0@ == first.push(
            '\r',
        ).push('\n') + rest,
    ensures
        q.author_aci_binary matches Some(b) ==> b@.len() == 16 ==> quote_of(c) == Some(
            (Uuid { value: be_value(b@) as u128 }, first),
        ),
        q.author_aci_binary is None && q.author_aci is Some && uuid_of_text(q.author_aci->0@) is Some
            ==> quote_of(c) == Some((uuid_of_text(q.author_aci->0@)->0, first)),
        q.author_aci_binary is None && q.author_aci is None ==> quote_of(c) is None,
{
    let t = q.text->0@;
    if t == first {
        crate::text::law_one_line(first);
    } else if t == first.push('\n') + rest {
        crate::text::law_line_and_rest(first, rest);
    } else {
        crate::text::law_line_and_rest(first.push('\r'), rest);
        let f = first.push('\r');
        assert(!f.contains('\n')) by {
            if f.contains('\n') {
                let j = f.index_of('\n');
                assert(first[j] == '\n');
            }
        }
        assert(f.drop_last() == first);
    }
}

/// Only a received message quotes; one without a quote, or without a text in it,
/// shows none.
pub proof fn law_no_quote_without_one(c: Content)
    ensures
        !(c.body is DataMessage) ==> quote_of(c) is None,
        c.body matches ContentBody::DataMessage(msg) ==> msg.quote is None ==> quote_of(c) is None,
        c.body matches ContentBody::DataMessage(msg) ==> msg.quote is Some
            && msg.quote->0.text is None && quote_of(c) is Some ==> quote_of(c).unwrap().1.len()
            == 0,
{
}

} // verus!
