//! The commands of the program and their output.

use vstd::prelude::*;

use crate::content::{body_of, message_body, Content};
use crate::ids::{thread_id_string, thread_text, uuid_text, Thread, Uuid};
use crate::json::{
    json_string, json_text, lemma_object3_is_one_line, lemma_object4_is_one_line,
    lemma_json_text_is_one_line, object3, object3_of, object4, object4_of,
};
use crate::roster::{name_in, Contact, SenderNames, ThreadEntry, ThreadView};
use crate::text::{
    chars_of, decimal, decimal_of, is_one_line, same, string_of, texts, trim, trim_of,
};
use crate::times::{fmt_ts_long, fmt_ts_utc, is_long_label, utc_label, utc_text};

verus! {

/// How the output is written.
#[derive(Clone, Copy, Debug, PartialEq, Eq, Structural)]
pub enum Format {
    Text,
    Json,
}

impl Format {
    /// The name of a format.
    pub fn text(&self) -> (r: &'static str)
        ensures
            r@ == (match *self {
                Format::Text => "text"@,
                Format::Json => "json"@,
            }),
    {
        match self {
            Format::Text => "text",
            Format::Json => "json",
        }
    }
}

/// A command of the program.
pub enum Cmd {
    Link,
    Chats { format: Format },
    Contacts { format: Format },
    Print { format: Format, recipient: String },
    PrintLast { count: usize, format: Format, recipient: String },
    Watch { format: Format, recipient: String },
    Send { recipient: String, text: Option<String>, attach: Vec<String> },
}

/// Whether a command, or the client itself, must be the only one to use the
/// session. Sending and printing are done at once and may go on beside another.
pub fn needs_lock(cmd: &Option<Cmd>) -> (r: bool)
    ensures
        r == !(match *cmd {
            Some(c) => c is Send || c is Print || c is PrintLast,
            None => false,
        }),
{
    match cmd {
        Some(Cmd::Send { .. }) | Some(Cmd::Print { .. }) | Some(Cmd::PrintLast { .. }) => false,
        _ => true,
    }
}

// ── Messages ─────────────────────────────────────────────────────────────────

/// A message as text.
pub open spec fn text_message(at: Seq<char>, name: Seq<char>, body: Seq<char>) -> Seq<char> {
    "["@ + at + "] "@ + name + ": "@ + body
}

/// A message as JSON.
pub open spec fn json_message(
    at: Seq<char>,
    sender: Uuid,
    name: Seq<char>,
    body: Seq<char>,
) -> Seq<char> {
    object4_of(
        "timestamp"@,
        json_text(at),
        "sender_uuid"@,
        json_text(uuid_text(sender)),
        "sender_name"@,
        json_text(name),
        "body"@,
        json_text(body),
    )
}

/// A message as text, given its date and time.
pub fn format_text(at: &str, name: &str, body: &str) -> (r: String)
    ensures
        r@ == text_message(at@, name@, body@),
{
    "[".to_owned().concat(at).concat("] ").concat(name).concat(": ").concat(body)
}

/// A message as JSON, given its date and time.
pub fn format_json(at: &str, sender: Uuid, name: &str, body: &str) -> (r: String)
    ensures
        r@ == json_message(at@, sender, name@, body@),
{
    object4(
        "timestamp",
        json_string(at).as_str(),
        "sender_uuid",
        json_string(sender.text().as_str()).as_str(),
        "sender_name",
        json_string(name).as_str(),
        "body",
        json_string(body).as_str(),
    )
}

/// A message as a line of output: as text with the time in the time zone of the
/// machine, or as JSON with the time in UTC.
pub open spec fn is_message_line(
    line: Seq<char>,
    format: Format,
    ts_ms: u64,
    sender: Uuid,
    name: Seq<char>,
    body: Seq<char>,
) -> bool {
    match format {
        Format::Text => exists|at: Seq<char>|
            is_long_label(ts_ms, at) && line == #[trigger] text_message(at, name, body),
        Format::Json => line == json_message(
            utc_label(ts_ms, utc_text((ts_ms / 1000) as int)),
            sender,
            name,
            body,
        ),
    }
}

/// A message as a line of output.
pub fn format_one(
    format: Format,
    ts_ms: u64,
    sender_uuid: Uuid,
    sender_name: &str,
    body: &str,
) -> (r: String)
    ensures
        is_message_line(r@, format, ts_ms, sender_uuid, sender_name@, body@),
{
    match format {
        Format::Text => {
            let at = fmt_ts_long(ts_ms);
            let r = format_text(at.as_str(), sender_name, body);
            proof {
                assert(r@ == text_message(at@, sender_name@, body@));
            }
            r
        },
        Format::Json => format_json(fmt_ts_utc(ts_ms).as_str(), sender_uuid, sender_name, body),
    }
}

/// The name that a sender is printed by: in text "You" for this account, else the
/// name that was looked up, or the identifier.
pub open spec fn printed_name_of(
    format: Format,
    sender: Uuid,
    own_aci: Option<Uuid>,
    names: Seq<(Uuid, Seq<char>)>,
) -> Seq<char> {
    if format is Text && own_aci == Some(sender) {
        "You"@
    } else {
        match name_in(names, sender) {
            Some(n) => n,
            None => uuid_text(sender),
        }
    }
}

/// The name that a sender is printed by.
pub fn printed_name(
    format: Format,
    sender: Uuid,
    own_aci: Option<Uuid>,
    names: &SenderNames,
) -> (r: String)
    ensures
        r@ == printed_name_of(format, sender, own_aci, names@),
{
    match format {
        Format::Text => {
            if own_aci == Some(sender) {
                return "You".to_owned();
            }
        },
        Format::Json => {},
    }
    match names.get(sender) {
        Some(n) => n,
        None => sender.text(),
    }
}

/// Messages from a place on, one on each line.
pub fn print_messages(
    messages: &Vec<Content>,
    start: usize,
    names: &SenderNames,
    own_aci: Option<Uuid>,
    format: Format,
) -> (r: Vec<String>)
    requires
        start <= messages@.len(),
    ensures
        r@.len() == messages@.len() - start,
        forall|i: int|
            0 <= i < r@.len() ==> {
                let m = messages@[start + i];
                is_message_line(
                    (#[trigger] r@[i])@,
                    format,
                    m.timestamp,
                    m.sender,
                    printed_name_of(format, m.sender, own_aci, names@),
                    body_of(m),
                )
            },
{
    let n = messages.len();
    let mut out: Vec<String> = Vec::new();
    let mut i: usize = start;
    while i < n
        invariant
            start <= i <= n == messages@.len(),
            out@.len() == i - start,
            forall|j: int|
                0 <= j < out@.len() ==> {
                    let m = messages@[start + j];
                    is_message_line(
                        (#[trigger] out@[j])@,
                        format,
                        m.timestamp,
                        m.sender,
                        printed_name_of(format, m.sender, own_aci, names@),
                        body_of(m),
                    )
                },
        decreases n - i,
    {
        let m = &messages[i];
        let name = printed_name(format, m.sender, own_aci, names);
        let body = message_body(m);
        out.push(format_one(format, m.timestamp, m.sender, name.as_str(), body.as_str()));
        i += 1;
    }
    out
}

/// The place of the first of the last `count` messages.
pub fn last_start(len: usize, count: usize) -> (r: usize)
    ensures
        r == (if count <= len {
            len - count
        } else {
            0
        }),
{
    if count <= len {
        len - count
    } else {
        0
    }
}

// ── Chats and contacts ───────────────────────────────────────────────────────

/// A chat as text: its name and, behind a colon, its last message if there is
/// one.
pub open spec fn chat_text(t: ThreadView) -> Seq<char> {
    if t.last_preview is Some && t.last_preview->0.len() > 0 {
        t.name + ": "@ + t.last_preview->0
    } else {
        t.name
    }
}

/// A chat as JSON.
pub open spec fn chat_json(t: ThreadView) -> Seq<char> {
    object4_of(
        "id"@,
        json_text(thread_text(t.thread)),
        "name"@,
        json_text(t.name),
        "preview"@,
        match t.last_preview {
            Some(p) => json_text(p),
            None => "null"@,
        },
        "last_ts"@,
        decimal_of(t.last_ts as nat),
    )
}

/// A chat as a line of output.
pub fn chat_line(entry: &ThreadEntry, format: Format) -> (r: String)
    ensures
        r@ == (match format {
            Format::Text => chat_text(entry@),
            Format::Json => chat_json(entry@),
        }),
{
    match format {
        Format::Text => {
            if let Some(p) = &entry.last_preview {
                if !p.as_str().is_empty() {
                    return entry.name.clone().concat(": ").concat(p.as_str());
                }
            }
            entry.name.clone()
        },
        Format::Json => {
            let preview = match &entry.last_preview {
                Some(p) => json_string(p.as_str()),
                None => "null".to_owned(),
            };
            object4(
                "id",
                json_string(thread_id_string(&entry.thread).as_str()).as_str(),
                "name",
                json_string(entry.name.as_str()).as_str(),
                "preview",
                preview.as_str(),
                "last_ts",
                decimal(entry.last_ts).as_str(),
            )
        },
    }
}

/// A contact or a group as a line of output.
pub open spec fn contact_output(thread: Thread, name: Seq<char>, format: Format) -> Seq<char> {
    match format {
        Format::Text => thread_text(thread) + " "@ + name,
        Format::Json => object3_of(
            "id"@,
            json_text(thread_text(thread)),
            "name"@,
            json_text(name),
            "type"@,
            json_text(
                match thread {
                    Thread::Contact(_) => "contact"@,
                    Thread::Group(_) => "group"@,
                },
            ),
        ),
    }
}

fn contact_output_line(thread: &Thread, name: &str, format: Format) -> (r: String)
    ensures
        r@ == contact_output(*thread, name@, format),
{
    let id = thread_id_string(thread);
    match format {
        Format::Text => id.concat(" ").concat(name),
        Format::Json => {
            let kind = match thread {
                Thread::Contact(_) => "contact",
                Thread::Group(_) => "group",
            };
            object3(
                "id",
                json_string(id.as_str()).as_str(),
                "name",
                json_string(name).as_str(),
                "type",
                json_string(kind).as_str(),
            )
        },
    }
}

/// The name that an entry is listed by: that in a fetched profile of a contact,
/// else its own.
pub open spec fn output_name(e: ThreadView, resolved: Seq<(Uuid, Seq<char>)>) -> Seq<char> {
    match e.thread {
        Thread::Contact(sid) => match name_in(resolved, sid.uuid()) {
            Some(n) => n,
            None => e.name,
        },
        Thread::Group(_) => e.name,
    }
}

/// A contact or a group as a line of output, given the names in fetched profiles.
pub fn contact_line(entry: &ThreadEntry, resolved: &SenderNames, format: Format) -> (r: String)
    ensures
        r@ == contact_output(entry.thread, output_name(entry@, resolved@), format),
{
    let mut name = entry.name.clone();
    if let Thread::Contact(sid) = &entry.thread {
        if let Some(n) = resolved.get(sid.raw_uuid()) {
            name = n;
        }
    }
    contact_output_line(&entry.thread, name.as_str(), format)
}

/// Whether an account is among the contacts.
pub open spec fn is_contact(contacts: Seq<Contact>, uuid: Uuid) -> bool {
    exists|i: int| 0 <= i < contacts.len() && (#[trigger] contacts[i]).uuid == uuid
}

/// The line for the account's owner, if the owner is among the contacts.
pub fn owner_line(contacts: &Vec<Contact>, own_aci: Option<Uuid>, format: Format) -> (r: Option<
    String,
>)
    ensures
        r is Some <==> own_aci is Some && is_contact(contacts@, own_aci->0),
        r matches Some(s) ==> s@ == contact_output(
            crate::roster::contact_thread(own_aci->0),
            "Note to Self"@,
            format,
        ),
{
    let own = match own_aci {
        Some(u) => u,
        None => {
            return None;
        },
    };
    let n = contacts.len();
    let mut i: usize = 0;
    while i < n
        invariant
            i <= n == contacts@.len(),
            own_aci == Some(own),
            forall|j: int| 0 <= j < i ==> (#[trigger] contacts@[j]).uuid != own,
        decreases n - i,
    {
        if contacts[i].uuid == own {
            let thread = Thread::Contact(crate::ids::ServiceId::Aci(own));
            return Some(contact_output_line(&thread, "Note to Self", format));
        }
        i += 1;
    }
    None
}

// ── One object, one line ─────────────────────────────────────────────────────

/// JSON output has one object on each line, whatever the texts hold: of a
/// message, of a chat, and of a contact or a group.
pub proof fn law_json_is_one_line(
    at: Seq<char>,
    sender: Uuid,
    name: Seq<char>,
    body: Seq<char>,
    chat: ThreadView,
    thread: Thread,
)
    ensures
        is_one_line(json_message(at, sender, name, body)),
        is_one_line(chat_json(chat)),
        is_one_line(contact_output(thread, name, Format::Json)),
{
    reveal_strlit("timestamp");
    reveal_strlit("sender_uuid");
    reveal_strlit("sender_name");
    reveal_strlit("body");
    reveal_strlit("id");
    reveal_strlit("name");
    reveal_strlit("preview");
    reveal_strlit("last_ts");
    reveal_strlit("type");
    reveal_strlit("null");
    lemma_json_text_is_one_line(at);
    lemma_json_text_is_one_line(uuid_text(sender));
    lemma_json_text_is_one_line(name);
    lemma_json_text_is_one_line(body);
    lemma_object4_is_one_line(
        "timestamp"@,
        json_text(at),
        "sender_uuid"@,
        json_text(uuid_text(sender)),
        "sender_name"@,
        json_text(name),
        "body"@,
        json_text(body),
    );
    let preview = match chat.last_preview {
        Some(p) => json_text(p),
        None => "null"@,
    };
    if let Some(p) = chat.last_preview {
        lemma_json_text_is_one_line(p);
    }
    lemma_json_text_is_one_line(thread_text(chat.thread));
    lemma_json_text_is_one_line(chat.name);
    lemma_decimal_is_one_line(chat.last_ts as nat);
    lemma_object4_is_one_line(
        "id"@,
        json_text(thread_text(chat.thread)),
        "name"@,
        json_text(chat.name),
        "preview"@,
        preview,
        "last_ts"@,
        decimal_of(chat.last_ts as nat),
    );
    let kind = match thread {
        Thread::Contact(_) => "contact"@,
        Thread::Group(_) => "group"@,
    };
    lemma_json_text_is_one_line(thread_text(thread));
    lemma_json_text_is_one_line(kind);
    lemma_object3_is_one_line(
        "id"@,
        json_text(thread_text(thread)),
        "name"@,
        json_text(name),
        "type"@,
        json_text(kind),
    );
}

proof fn lemma_decimal_is_one_line(n: nat)
    ensures
        is_one_line(decimal_of(n)),
    decreases n,
{
    if n >= 10 {
        lemma_decimal_is_one_line(n / 10);
    }
}

// ── Watching ─────────────────────────────────────────────────────────────────

/// What `watch` has shown lately.
pub struct Watch {
    pub thread: Thread,
    /// Nothing older than this is shown.
    pub start_ts: u64,
    /// The time stamps shown within the last minute.
    pub seen: Vec<u64>,
}

/// The time stamps that are still remembered when a message of the given time
/// comes: those of the minute before it, and later ones.
pub open spec fn remembered(seen: Set<u64>, ts: u64) -> Set<u64> {
    seen.filter(|t: u64| t >= ts - 60_000)
}

/// Whether a message belongs to what is watched.
pub open spec fn is_watched(content: Content, thread: Thread, start_ts: u64) -> bool {
    content.timestamp >= start_ts && content.thread == Some(thread) && body_of(content).len() > 0
}

/// What is remembered after a message, and whether the message is shown: if its
/// time stamp is not remembered.
pub open spec fn watch_step(
    seen: Set<u64>,
    thread: Thread,
    start_ts: u64,
    content: Content,
) -> (Set<u64>, bool) {
    if !is_watched(content, thread, start_ts) {
        (seen, false)
    } else {
        let ts = content.timestamp;
        (remembered(seen, ts).insert(ts), !remembered(seen, ts).contains(ts))
    }
}

impl Watch {
    /// Watches a thread from a time on.
    pub fn new(thread: Thread, start_ts: u64) -> (r: Watch)
        ensures
            r.thread == thread,
            r.start_ts == start_ts,
            r.seen@.to_set() == Set::<u64>::empty(),
    {
        let r = Watch { thread, start_ts, seen: Vec::new() };
        proof {
            assert(r.seen@.to_set() == Set::<u64>::empty());
        }
        r
    }

    fn evict(&mut self, ts: u64) -> (present: bool)
        ensures
            final(self).thread == old(self).thread,
            final(self).start_ts == old(self).start_ts,
            final(self).seen@.to_set() == remembered(old(self).seen@.to_set(), ts),
            present == final(self).seen@.contains(ts),
    {
        let horizon = if ts >= 60_000 {
            ts - 60_000
        } else {
            0
        };
        let ghost all = self.seen@;
        let mut present = false;
        let mut i: usize = 0;
        let ghost mut k: int = 0;
        proof {
            assert(all.skip(0) == all);
        }
        while i < self.seen.len()
            invariant
                self.thread == old(self).thread,
                self.start_ts == old(self).start_ts,
                0 <= k <= all.len(),
                i <= self.seen@.len(),
                self.seen@.skip(i as int) == all.skip(k),
                forall|t: u64| #[trigger]
                    self.seen@.take(i as int).contains(t) <==> all.take(k).contains(t) && t
                        >= horizon,
                present == self.seen@.take(i as int).contains(ts),
            decreases all.len() - k,
        {
            let ghost v = self.seen@;
            let ghost t = v[i as int];
            proof {
                assert(v.skip(i as int)[0] == t);
                assert(all.skip(k)[0] == t);
                assert(v.skip(i as int).len() == all.skip(k).len());
                assert(all[k] == t);
                assert(all.skip(k).skip(1) == all.skip(k + 1));
                assert(all.take(k + 1) == all.take(k).push(t));
                lemma_push_contains(all.take(k), t);
            }
            if self.seen[i] < horizon {
                self.seen.remove(i);
                proof {
                    assert(self.seen@.take(i as int) == v.take(i as int));
                    assert(self.seen@.skip(i as int) == v.skip(i as int).skip(1));
                }
            } else {
                if self.seen[i] == ts {
                    present = true;
                }
                i += 1;
                proof {
                    assert(v.take(i as int) == v.take(i - 1).push(t));
                    lemma_push_contains(v.take(i - 1), t);
                    assert(v.skip(i as int) == v.skip(i - 1).skip(1));
                }
            }
            proof {
                k = k + 1;
            }
        }
        proof {
            assert(self.seen@.skip(i as int).len() == 0);
            assert(k == all.len());
            assert(self.seen@.take(i as int) == self.seen@);
            assert(all.take(k) == all);
            assert(self.seen@.to_set() == remembered(all.to_set(), ts));
        }
        present
    }

    /// Takes a message; gives its text if it is to be shown.
    pub fn observe(&mut self, content: &Content) -> (r: Option<String>)
        ensures
            final(self).thread == old(self).thread,
            final(self).start_ts == old(self).start_ts,
            (final(self).seen@.to_set(), r is Some) == watch_step(
                old(self).seen@.to_set(),
                old(self).thread,
                old(self).start_ts,
                *content,
            ),
            r matches Some(s) ==> s@ == body_of(*content),
            content.thread == Some(old(self).thread) && body_of(*content).len() > 0
                && content.timestamp >= old(self).start_ts && !old(self).seen@.contains(
                content.timestamp,
            ) ==> r is Some,
            r is Some ==> content.thread == Some(old(self).thread) && content.timestamp
                >= old(self).start_ts && !old(self).seen@.contains(content.timestamp),
    {
        let ts = content.timestamp;
        if ts < self.start_ts || content.thread != Some(self.thread) {
            return None;
        }
        let body = message_body(content);
        if body.as_str().is_empty() {
            return None;
        }
        let present = self.evict(ts);
        let ghost kept = self.seen@;
        proof {
            lemma_push_contains(kept, ts);
        }
        if present {
            proof {
                assert(kept.to_set().insert(ts) == kept.to_set());
            }
            None
        } else {
            self.seen.push(ts);
            proof {
                assert(self.seen@.to_set() == kept.to_set().insert(ts));
            }
            Some(body)
        }
    }
}

proof fn lemma_push_contains(s: Seq<u64>, x: u64)
    ensures
        forall|t: u64| #[trigger] s.push(x).contains(t) <==> s.contains(t) || t == x,
{
    assert forall|t: u64| #[trigger] s.push(x).contains(t) <==> s.contains(t) || t == x by {
        if s.contains(t) {
            let i = s.index_of(t);
            assert(s.push(x)[i] == t);
        }
        if t == x {
            assert(s.push(x)[s.len() as int] == x);
        }
        if s.push(x).contains(t) && t != x {
            let i = s.push(x).index_of(t);
            assert(s[i] == t);
        }
    }
}

/// A message that comes again is shown once: right after it was taken its time
/// stamp is remembered, it stays so while no message comes that is more than a
/// minute later, and while it is, the message is not shown.
pub proof fn law_repeated_message_is_shown_once(
    seen: Set<u64>,
    thread: Thread,
    start_ts: u64,
    content: Content,
    other: Content,
)
    requires
        is_watched(content, thread, start_ts),
    ensures
        watch_step(seen, thread, start_ts, content).0.contains(content.timestamp),
        seen.contains(content.timestamp) && other.timestamp <= content.timestamp + 60_000
            ==> watch_step(seen, thread, start_ts, other).0.contains(content.timestamp),
        seen.contains(content.timestamp) ==> !watch_step(seen, thread, start_ts, content).1,
{
}

/// What came before the watch began is never shown, and what is remembered
/// reaches back no more than a minute.
pub proof fn law_backlog_is_skipped(
    seen: Set<u64>,
    thread: Thread,
    start_ts: u64,
    content: Content,
    t: u64,
)
    ensures
        content.timestamp < start_ts ==> watch_step(seen, thread, start_ts, content) == (
            seen,
            false,
        ),
        is_watched(content, thread, start_ts) && watch_step(
            seen,
            thread,
            start_ts,
            content,
        ).0.contains(t) ==> t >= content.timestamp - 60_000,
{
}

// ── Sending and linking ──────────────────────────────────────────────────────

/// A text without the line ends at its end.
pub open spec fn without_line_ends(s: Seq<char>) -> Seq<char>
    decreases s.len(),
{
    if s.len() > 0 && (s.last() == '\n' || s.last() == '\r') {
        without_line_ends(s.drop_last())
    } else {
        s
    }
}

/// The text of a message that was read from standard input.
pub fn stdin_text(input: &str) -> (r: String)
    ensures
        r@ == without_line_ends(input@),
{
    let chars = chars_of(input);
    let mut end = chars.len();
    proof {
        assert(input@.take(end as int) == input@);
    }
    while end > 0 && (chars[end - 1] == '\n' || chars[end - 1] == '\r')
        invariant
            end <= chars@.len(),
            chars@ == input@,
            without_line_ends(input@.take(end as int)) == without_line_ends(input@),
        decreases end,
    {
        proof {
            assert(input@.take(end as int).drop_last() == input@.take(end - 1));
        }
        end -= 1;
    }
    proof {
        assert(input@.subrange(0, end as int) == input@.take(end as int));
    }
    string_of(&chars, 0, end)
}

/// Whether there is something to send: a text or a file; else why not.
pub fn check_sendable(text: &str, attachments: usize) -> (r: Result<(), String>)
    ensures
        r is Ok <==> text@.len() > 0 || attachments > 0,
        r matches Err(e) ==> e@ == "nothing to send (no text and no attachments)"@,
{
    if text.is_empty() && attachments == 0 {
        Err("nothing to send (no text and no attachments)".to_owned())
    } else {
        Ok(())
    }
}

/// Whether an answer means that the database may be wiped.
pub fn confirmed(answer: &str) -> (r: bool)
    ensures
        r == (trim_of(answer@) == "y"@ || trim_of(answer@) == "Y"@),
{
    let a = trim(answer);
    same(a.as_str(), "y") || same(a.as_str(), "Y")
}

/// The names of the files that make up a database.
pub fn database_files(base: &str) -> (r: Vec<String>)
    ensures
        texts(r@) == seq![base@, base@ + "-wal"@, base@ + "-shm"@],
{
    let mut out: Vec<String> = Vec::new();
    out.push(base.to_owned());
    out.push(base.to_owned().concat("-wal"));
    out.push(base.to_owned().concat("-shm"));
    proof {
        assert(texts(out@) == seq![base@, base@ + "-wal"@, base@ + "-shm"@]);
    }
    out
}

/// Every message of the watched thread, be it with a contact or a group, is shown
/// if it has a text, did not come before the watch began, and was not shown within
/// the last minute. Nothing else is shown, and nothing else is remembered.
pub proof fn law_watch_shows_new_messages(
    seen: Set<u64>,
    thread: Thread,
    start_ts: u64,
    content: Content,
)
    ensures
        ({
            let (after, shown) = watch_step(seen, thread, start_ts, content);
            let ts = content.timestamp;
            let wanted = content.thread == Some(thread) && body_of(content).len() > 0 && ts
                >= start_ts;
            &&& wanted && !seen.contains(ts) ==> shown
            &&& wanted && seen.contains(ts) ==> !shown
            &&& !wanted ==> !shown && after == seen
            &&& wanted ==> after.contains(ts)
            &&& wanted ==> forall|t: u64|
                t != ts ==> (#[trigger] after.contains(t) <==> seen.contains(t) && t + 60_000
                    >= ts)
        }),
{
}

// ── What a line says ─────────────────────────────────────────────────────────

/// A message is printed with its time, its sender and its text; in JSON with the time in
/// UTC and the sender's identifier too.
pub proof fn law_messages_are_printed(
    line: Seq<char>,
    format: Format,
    ts_ms: u64,
    sender: Uuid,
    name: Seq<char>,
    body: Seq<char>,
)
    requires
        is_message_line(line, format, ts_ms, sender, name, body),
    ensures
        format is Text ==> exists|at: Seq<char>| #[trigger]
            is_long_label(ts_ms, at) && line == "["@ + at + "] "@ + name + ": "@ + body,
        format is Json ==> line == object4_of(
            "timestamp"@,
            json_text(utc_label(ts_ms, utc_text((ts_ms / 1000) as int))),
            "sender_uuid"@,
            json_text(uuid_text(sender)),
            "sender_name"@,
            json_text(name),
            "body"@,
            json_text(body),
        ),
{
    if format is Text {
        let at = choose|at: Seq<char>|
            is_long_label(ts_ms, at) && line == #[trigger] text_message(at, name, body);
        assert(is_long_label(ts_ms, at));
    }
}

/// A sender is printed by the name that was looked up, or by the identifier; this
/// account is "You" in text.
pub proof fn law_senders_are_printed(
    format: Format,
    sender: Uuid,
    own_aci: Option<Uuid>,
    names: Seq<(Uuid, Seq<char>)>,
)
    ensures
        format is Text && own_aci == Some(sender) ==> printed_name_of(
            format,
            sender,
            own_aci,
            names,
        ) == "You"@,
        format is Json || own_aci != Some(sender) ==> (name_in(names, sender) matches Some(n)
            ==> printed_name_of(format, sender, own_aci, names) == n),
        (format is Json || own_aci != Some(sender)) && name_in(names, sender) is None
            ==> printed_name_of(format, sender, own_aci, names) == uuid_text(sender),
{
}

/// A chat is printed by its name, with its last message behind a colon if it has one; in
/// JSON with its identifier, its name, its last message and its time.
pub proof fn law_chats_are_printed(t: ThreadView)
    ensures
        t.last_preview matches Some(p) ==> p.len() > 0 ==> chat_text(t) == t.name + ": "@ + p,
        t.last_preview is None || t.last_preview->0.len() == 0 ==> chat_text(t) == t.name,
        t.last_preview matches Some(p) ==> chat_json(t) == object4_of(
            "id"@,
            json_text(thread_text(t.thread)),
            "name"@,
            json_text(t.name),
            "preview"@,
            json_text(p),
            "last_ts"@,
            decimal_of(t.last_ts as nat),
        ),
        t.last_preview is None ==> chat_json(t) == object4_of(
            "id"@,
            json_text(thread_text(t.thread)),
            "name"@,
            json_text(t.name),
            "preview"@,
            "null"@,
            "last_ts"@,
            decimal_of(t.last_ts as nat),
        ),
{
}

/// A contact or a group is printed with its identifier and its name, in JSON with its
/// kind too; a contact by the name in its profile if one was fetched.
pub proof fn law_contacts_are_printed(
    thread: Thread,
    name: Seq<char>,
    e: ThreadView,
    resolved: Seq<(Uuid, Seq<char>)>,
)
    ensures
        contact_output(thread, name, Format::Text) == thread_text(thread) + " "@ + name,
        thread is Contact ==> contact_output(thread, name, Format::Json) == object3_of(
            "id"@,
            json_text(thread_text(thread)),
            "name"@,
            json_text(name),
            "type"@,
            json_text("contact"@),
        ),
        thread is Group ==> contact_output(thread, name, Format::Json) == object3_of(
            "id"@,
            json_text(thread_text(thread)),
            "name"@,
            json_text(name),
            "type"@,
            json_text("group"@),
        ),
        e.thread is Group ==> output_name(e, resolved) == e.name,
        e.thread matches Thread::Contact(sid) ==> name_in(resolved, sid.uuid()) is None
            ==> output_name(e, resolved) == e.name,
        e.thread matches Thread::Contact(sid) ==> name_in(resolved, sid.uuid()) is Some
            ==> output_name(e, resolved) == name_in(resolved, sid.uuid())->0,
{
}

/// What is read from standard input loses the line ends at its end, all of them and
/// nothing else.
pub proof fn law_line_ends_at_the_end_are_dropped(s: Seq<char>)
    ensures
        ({
            let t = without_line_ends(s);
            &&& t.is_prefix_of(s)
            &&& forall|i: int| t.len() <= i < s.len() ==> #[trigger] s[i] == '\n' || s[i] == '\r'
            &&& t.len() > 0 ==> t.last() != '\n' && t.last() != '\r'
        }),
    decreases s.len(),
{
    if s.len() > 0 && (s.last() == '\n' || s.last() == '\r') {
        law_line_ends_at_the_end_are_dropped(s.drop_last());
        let t = without_line_ends(s);
        assert forall|i: int| t.len() <= i < s.len() implies #[trigger] s[i] == '\n' || s[i]
            == '\r' by {
            if i < s.len() - 1 {
                assert(s.drop_last()[i] == s[i]);
            }
        }
    }
}

/// The owner is listed if one of the contacts is the owner's account.
pub proof fn law_owner_is_found_among_contacts(contacts: Seq<Contact>, c: Contact, uuid: Uuid)
    ensures
        !is_contact(Seq::empty(), uuid),
        is_contact(contacts.push(c), uuid) <==> is_contact(contacts, uuid) || c.uuid == uuid,
{
    let all = contacts.push(c);
    if is_contact(contacts, uuid) {
        let i = choose|i: int|
            0 <= i < contacts.len() && (#[trigger] contacts[i]).uuid == uuid;
        assert(all[i].uuid == uuid);
    }
    if c.uuid == uuid {
        assert(all[contacts.len() as int].uuid == uuid);
    }
    if is_contact(all, uuid) && c.uuid != uuid {
        let i = choose|i: int| 0 <= i < all.len() && (#[trigger] all[i]).uuid == uuid;
        assert(contacts[i].uuid == uuid);
    }
}

} // verus!
