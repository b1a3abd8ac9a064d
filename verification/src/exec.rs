//! What is done after a key: opening a chat, sending, commands and deleting.

use std::collections::HashSet;

use vstd::prelude::*;

use crate::app::{App, AppView, ListState};
use crate::attach::{
    attachments_of, download_views, files_at, message_downloads, messages_with_files,
    thread_downloads, thread_files, Download, DownloadView, StagedAttachment,
};
use crate::chat::{hinting, is_own, is_own_message, lesser, ChatState, ChatView, ModeView};
use crate::command::{
    command_of, emoji_of_shortcode, parse_colon_cmd, resolve_emoji, resolved_emoji, ColonCmd,
    Command,
};
use crate::content::{
    body_of, data_message_of, edit_of, first_line_of, message_body, quote_of, AttachmentPointer,
    Content,
};
use crate::history::{
    acks_of, events_of, is_chat_of, known_timestamps, law_acks_are_new_messages_of_others,
    load_messages_and_reactions, timestamps_to_ack,
};
use crate::ids::{Thread, Uuid};
use crate::outgoing::{
    is_edit, is_plain, is_reply, law_sent_reply_is_read, send_edit, send_reply, send_to_thread,
    Outgoing, QuoteInfo,
};
use crate::reactions::{
    pair_texts, reacted, reaction_hint, reaction_hint_of, Reacting, ReactionMap,
};
use crate::roster::{entry_views, opt_text, SenderNames, ThreadEntry};
use crate::screen;
use crate::text::{decimal, decimal_of, join_of, lemma_boundary_ends, same, trim, trim_of};

verus! {

broadcast use vstd::std_specs::hash::group_hash_axioms;

// ── Screens ──────────────────────────────────────────────────────────────────

/// Whether the reactions are those that the records of a thread leave standing.
pub open spec fn are_reactions_of(
    reactions: ReactionMap,
    records: Seq<Option<Content>>,
) -> bool {
    &&& reactions.wf()
    &&& forall|t: u64, e: Seq<char>, s: Uuid| #[trigger]
        reactions.has(t, e, s) == reacted(events_of(records), t, e, s)
}

/// The selection of a list of a new length.
pub open spec fn reselected(state: ListState, len: int) -> ListState {
    if len == 0 {
        state
    } else {
        ListState {
            selected: Some(
                match state.selected {
                    Some(i) => lesser(i as int, len - 1) as usize,
                    None => 0,
                },
            ),
            ..state
        }
    }
}

impl App {
    /// Opens a thread, given its records and, if they could be read, the time
    /// stamps of our messages that were delivered and read. Gives the messages
    /// to acknowledge.
    pub fn open_thread(
        &mut self,
        thread: Thread,
        name: String,
        records: Vec<Option<Content>>,
        receipts: Option<(HashSet<u64>, HashSet<u64>)>,
        sender_names: SenderNames,
    ) -> (to_ack: Vec<u64>)
        ensures
            final(self)@.wf(),
            final(self)@.chat is Some,
            final(self)@ == (AppView {
                view: screen::View::ChatWindow,
                chat: Some(
                    ChatView {
                        thread,
                        thread_name: name@,
                        messages: final(self)@.chat->0.messages,
                        scroll: 0,
                        viewport_height: 0,
                        viewport_top_msg: 0,
                        input: Seq::empty(),
                        cursor: 0,
                        selected_message: None,
                        delivered: match receipts {
                            Some(r) => r.0@,
                            None => Set::empty(),
                        },
                        read: match receipts {
                            Some(r) => r.1@,
                            None => Set::empty(),
                        },
                        hint: None,
                        reactions: final(self)@.chat->0.reactions,
                        mode: ModeView::Normal,
                        reply_to: None,
                        editing: None,
                        sender_names: sender_names@,
                        pending_d: false,
                        staged: Seq::empty(),
                        selected_attachment: None,
                    },
                ),
                ..old(self)@
            }),
            is_chat_of(final(self)@.chat->0.messages, records@),
            are_reactions_of(final(self)@.chat->0.reactions, records@),
            to_ack@ == acks_of(final(self)@.chat->0.messages, old(self)@.own_aci, Set::empty()),
    {
        let (messages, reactions) = load_messages_and_reactions(records);
        let (delivered, read) = match receipts {
            Some(r) => r,
            None => (HashSet::new(), HashSet::new()),
        };
        let none: HashSet<u64> = HashSet::new();
        let to_ack = timestamps_to_ack(&messages, self.own_aci, &none);
        self.open_chat(thread, name, messages, delivered, read, reactions, sender_names);
        to_ack
    }

    /// Opens the contact browser with the given entries, of which the first
    /// `split` are contacts.
    pub fn open_contact_browser(&mut self, contacts: Vec<ThreadEntry>, split: usize)
        ensures
            final(self)@ == (AppView {
                contacts: entry_views(contacts@),
                contacts_split: split,
                contact_list_state: ListState {
                    offset: 0,
                    selected: if contacts@.len() > 0 {
                        Some(0)
                    } else {
                        None
                    },
                },
                view: screen::View::ContactBrowser,
                ..old(self)@
            }),
    {
        let mut state = ListState::new();
        if contacts.len() > 0 {
            state.select(Some(0));
        }
        self.contacts = contacts;
        self.contacts_split = split;
        self.contact_list_state = state;
        self.view = screen::View::ContactBrowser;
    }

    /// Shows the chat list with the given threads; the selection stays where it
    /// is, or moves to the last line.
    pub fn show_threads(&mut self, threads: Vec<ThreadEntry>)
        ensures
            final(self)@ == (AppView {
                threads: entry_views(threads@),
                list_state: reselected(old(self)@.list_state, threads@.len() as int),
                view: screen::View::ChatList,
                ..old(self)@
            }),
    {
        let n = threads.len();
        self.threads = threads;
        if n > 0 {
            let line = match self.list_state.selected {
                Some(i) => if i <= n - 1 {
                    i
                } else {
                    n - 1
                },
                None => 0,
            };
            self.list_state.select(Some(line));
        }
        self.view = screen::View::ChatList;
    }
}

// ── Reloading ────────────────────────────────────────────────────────────────

impl ChatState {
    /// Takes over the messages and reactions in the records of the thread.
    pub fn reload(&mut self, records: Vec<Option<Content>>)
        requires
            old(self)@.wf(),
        ensures
            final(self)@.wf(),
            final(self)@ == (ChatView {
                messages: final(self)@.messages,
                reactions: final(self)@.reactions,
                ..old(self)@
            }),
            is_chat_of(final(self)@.messages, records@),
            are_reactions_of(final(self)@.reactions, records@),
    {
        let (messages, reactions) = load_messages_and_reactions(records);
        self.messages = messages;
        self.reactions = reactions;
    }

    /// Takes over the records of the thread after something was received, and
    /// the receipts if they could be read. Gives the messages to acknowledge:
    /// those that were not there before.
    pub fn on_received(
        &mut self,
        own_aci: Option<Uuid>,
        records: Vec<Option<Content>>,
        receipts: Option<(HashSet<u64>, HashSet<u64>)>,
    ) -> (to_ack: Vec<u64>)
        requires
            old(self)@.wf(),
        ensures
            final(self)@.wf(),
            final(self)@ == (ChatView {
                messages: final(self)@.messages,
                reactions: final(self)@.reactions,
                delivered: match receipts {
                    Some(r) => r.0@,
                    None => old(self)@.delivered,
                },
                read: match receipts {
                    Some(r) => r.1@,
                    None => old(self)@.read,
                },
                ..old(self)@
            }),
            is_chat_of(final(self)@.messages, records@),
            are_reactions_of(final(self)@.reactions, records@),
            to_ack@ == acks_of(final(self)@.messages, own_aci, timestamps_of(old(self)@.messages)),
    {
        let known = known_timestamps(&self.messages);
        proof {
            assert(known@ == timestamps_of(self@.messages));
        }
        self.reload(records);
        if let Some((delivered, read)) = receipts {
            self.delivered = delivered;
            self.read = read;
        }
        timestamps_to_ack(&self.messages, own_aci, &known)
    }
}

/// The time stamps of messages.
pub open spec fn timestamps_of(messages: Seq<Content>) -> Set<u64> {
    Set::new(
        |t: u64| exists|i: int| 0 <= i < messages.len() && (#[trigger] messages[i]).timestamp == t,
    )
}

// ── Sending ──────────────────────────────────────────────────────────────────

/// What Enter sends.
pub struct Draft {
    pub thread: Thread,
    pub text: String,
    pub reply: Option<QuoteInfo>,
    /// The time stamp of the message that is edited.
    pub editing: Option<u64>,
    pub staged: Vec<StagedAttachment>,
}

/// The contents of a quote.
pub open spec fn quote_view(q: Option<QuoteInfo>) -> Option<(u64, Uuid, Seq<char>)> {
    match q {
        Some(q) => Some((q.ts, q.author, q.text@)),
        None => None,
    }
}

/// The message at a place as it is quoted, if there is such a message.
pub open spec fn quote_at(messages: Seq<Content>, index: Option<usize>) -> Option<
    (u64, Uuid, Seq<char>),
> {
    match index {
        Some(i) => if i < messages.len() {
            let m = messages[i as int];
            Some((m.timestamp, m.sender, body_of(m)))
        } else {
            None
        },
        None => None,
    }
}

/// The message at a place as it is quoted, if there is such a message.
pub fn quote_message(messages: &Vec<Content>, index: Option<usize>) -> (r: Option<QuoteInfo>)
    ensures
        quote_view(r) == quote_at(messages@, index),
        r is Some <==> index is Some && index->0 < messages@.len(),
        r matches Some(q) ==> q.ts == messages@[index->0 as int].timestamp && q.author
            == messages@[index->0 as int].sender && q.text@ == body_of(
            messages@[index->0 as int],
        ),
{
    match index {
        Some(i) => if i < messages.len() {
            let m = &messages[i];
            Some(QuoteInfo { ts: m.timestamp, author: m.sender, text: message_body(m) })
        } else {
            None
        },
        None => None,
    }
}

/// The chat after its draft was taken; the staged files stay if a message is
/// edited.
pub open spec fn drafted(c: ChatView) -> ChatView {
    ChatView {
        input: Seq::empty(),
        cursor: 0,
        reply_to: None,
        editing: None,
        staged: if c.editing is None {
            Seq::empty()
        } else {
            c.staged
        },
        ..c
    }
}

/// The staged files other than that with a path.
pub open spec fn without_path(staged: Seq<StagedAttachment>, path: Seq<char>) -> Seq<
    StagedAttachment,
>
    decreases staged.len(),
{
    if staged.len() == 0 {
        Seq::empty()
    } else if staged.last().path@ == path {
        without_path(staged.drop_last(), path)
    } else {
        without_path(staged.drop_last(), path).push(staged.last())
    }
}

/// The chat after an upload that did not succeed: the other files are staged
/// again, and the status bar shows the message.
pub open spec fn upload_undone(
    c: ChatView,
    staged: Seq<StagedAttachment>,
    message: Seq<char>,
    path: Seq<char>,
) -> ChatView {
    let left = without_path(staged, path);
    ChatView {
        staged: left,
        selected_attachment: match c.selected_attachment {
            Some(i) => if left.len() == 0 {
                None
            } else {
                Some(lesser(i as int, left.len() - 1) as usize)
            },
            None => None,
        },
        hint: Some(message),
        ..c
    }
}

fn drop_path(staged: Vec<StagedAttachment>, path: &str) -> (r: Vec<StagedAttachment>)
    ensures
        r@ == without_path(staged@, path@),
{
    let ghost all = staged@;
    let mut left = staged;
    let mut i: usize = 0;
    let ghost mut k: int = 0;
    proof {
        assert(all.skip(0) == all);
        assert(without_path(all.take(0), path@) == Seq::<StagedAttachment>::empty());
    }
    while i < left.len()
        invariant
            0 <= k <= all.len(),
            i == without_path(all.take(k), path@).len(),
            left@ == without_path(all.take(k), path@) + all.skip(k),
            all == staged@,
        decreases all.len() - k,
    {
        let ghost done = without_path(all.take(k), path@);
        proof {
            assert(k < all.len());
            assert(left@[i as int] == all[k]);
            assert(all.take(k + 1).drop_last() == all.take(k));
            assert(all.take(k + 1).last() == all[k]);
        }
        if same(left[i].path.as_str(), path) {
            left.remove(i);
            proof {
                assert(left@ == done + all.skip(k + 1));
            }
        } else {
            i += 1;
            proof {
                assert(left@ == done.push(all[k]) + all.skip(k + 1));
            }
        }
        proof {
            k = k + 1;
        }
    }
    proof {
        assert(k == all.len());
        assert(all.take(k) == all);
        assert(left@ == without_path(all, path@));
    }
    left
}

impl ChatState {
    /// Takes what is to be sent out of the chat.
    pub fn take_draft(&mut self) -> (r: Draft)
        requires
            old(self)@.wf(),
        ensures
            final(self)@ == drafted(old(self)@),
            final(self)@.sending_wf(),
            r.staged@.len() == 0 ==> final(self)@.wf(),
            r.thread == old(self)@.thread,
            r.text@ == old(self)@.input,
            quote_view(r.reply) == quote_at(old(self)@.messages, old(self)@.reply_to),
            old(self)@.reply_to matches Some(i) ==> i < old(self)@.messages.len()
                ==> r.reply is Some && r.reply->0.ts == old(self)@.messages[i as int].timestamp
                && r.reply->0.author == old(self)@.messages[i as int].sender && r.reply->0.text@
                == body_of(old(self)@.messages[i as int]),
            old(self)@.reply_to is None ==> r.reply is None,
            final(self)@.input.len() == 0,
            final(self)@.cursor == 0,
            final(self)@.reply_to is None,
            final(self)@.editing is None,
            final(self)@.messages == old(self)@.messages,
            final(self)@.selected_message == old(self)@.selected_message,
            old(self)@.editing is None ==> final(self)@.staged.len() == 0,
            old(self)@.editing is Some ==> final(self)@.staged == old(self)@.staged,
            r.editing == (match old(self)@.editing {
                Some(e) => Some(e.1),
                None => None,
            }),
            r.staged@ == (if old(self)@.editing is None {
                old(self)@.staged
            } else {
                Seq::empty()
            }),
    {
        let reply = quote_message(&self.messages, self.reply_to);
        let editing = match self.editing {
            Some((_, ts)) => Some(ts),
            None => None,
        };
        self.editing = None;
        self.reply_to = None;
        let mut staged: Vec<StagedAttachment> = Vec::new();
        if editing.is_none() {
            std::mem::swap(&mut self.staged_attachments, &mut staged);
        }
        let mut text = String::new();
        std::mem::swap(&mut self.input, &mut text);
        self.cursor = 0;
        proof {
            lemma_boundary_ends(self.input@);
            assert(self@ == drafted(old(self)@));
        }
        Draft { thread: self.thread, text, reply, editing, staged }
    }

    /// All staged files were uploaded.
    pub fn uploads_done(&mut self)
        requires
            old(self)@.sending_wf(),
        ensures
            final(self)@ == (ChatView { selected_attachment: None, ..old(self)@ }),
            final(self)@.wf(),
    {
        self.selected_attachment = None;
    }

    /// An upload did not succeed: stages the other files again.
    pub fn uploads_failed(
        &mut self,
        staged: Vec<StagedAttachment>,
        message: String,
        failed_path: &str,
    )
        requires
            old(self)@.sending_wf(),
        ensures
            final(self)@ == upload_undone(old(self)@, staged@, message@, failed_path@),
            final(self)@.wf(),
            final(self)@.hint == Some(message@),
            final(self)@.messages == old(self)@.messages,
            final(self)@.input == old(self)@.input,
    {
        self.staged_attachments = drop_path(staged, failed_path);
        if let Some(i) = self.selected_attachment {
            let n = self.staged_attachments.len();
            self.selected_attachment = if n == 0 {
                None
            } else if i <= n - 1 {
                Some(i)
            } else {
                Some(n - 1)
            };
        }
        self.autocomplete_hint = Some(message);
    }

    /// A message was sent; after an edit or a reply nothing is selected.
    pub fn on_sent(&mut self, edit_or_reply: bool)
        requires
            old(self)@.wf(),
        ensures
            final(self)@ == (if edit_or_reply {
                ChatView { selected_message: None, ..old(self)@ }
            } else {
                old(self)@
            }),
            final(self)@.wf(),
    {
        if edit_or_reply {
            self.selected_message = None;
        }
    }
}

impl Draft {
    /// Whether the draft is an edit or a reply.
    pub fn is_edit_or_reply(&self) -> (r: bool)
        ensures
            r == (self.editing is Some || self.reply is Some),
    {
        self.editing.is_some() || self.reply.is_some()
    }
}

/// The message that a draft makes with its uploaded files: an edit, else a reply,
/// else a message of its own, without the white space around its text; none if
/// there is nothing to send.
pub fn draft_message(
    draft: Draft,
    pointers: Vec<AttachmentPointer>,
    revision: u32,
    now: u64,
) -> (r: Option<Outgoing>)
    ensures
        r is Some <==> trim_of(draft.text@).len() > 0 || pointers@.len() > 0,
        r matches Some(out) ==> match (draft.editing, draft.reply) {
            (Some(ts), _) => is_edit(
                out,
                draft.thread,
                ts,
                trim_of(draft.text@),
                revision,
                now,
            ),
            (None, Some(quoted)) => is_reply(
                out,
                draft.thread,
                trim_of(draft.text@),
                quoted,
                pointers,
                revision,
                now,
            ),
            (None, None) => is_plain(
                out,
                draft.thread,
                trim_of(draft.text@),
                pointers,
                revision,
                now,
            ),
        },
{
    let text = trim(draft.text.as_str());
    if text.as_str().is_empty() && pointers.len() == 0 {
        return None;
    }
    match draft.editing {
        Some(ts) => Some(send_edit(draft.thread, ts, text, revision, now)),
        None => match draft.reply {
            Some(quoted) => Some(
                send_reply(draft.thread, text, quoted, pointers, revision, now),
            ),
            None => Some(send_to_thread(draft.thread, text, pointers, revision, now)),
        },
    }
}

// ── Commands ─────────────────────────────────────────────────────────────────

/// What is left to do for a command.
pub enum CmdAction {
    Nothing,
    /// A reaction has to be sent, then the chat reloaded.
    React { emoji: String, target_ts: u64, target_author: Uuid, remove: bool },
    /// The file system has to be asked about a path.
    Stage(String),
    /// The files have to be saved in the directory, or the usual one if it is
    /// empty.
    Download { files: Vec<Download>, dir: String },
    /// The files of that many messages have to be saved.
    DownloadAll { files: Vec<Download>, messages: usize, dir: String },
}

/// The contents of what is left to do for a command.
pub enum ActionView {
    Nothing,
    React { emoji: Seq<char>, target_ts: u64, target_author: Uuid, remove: bool },
    Stage(Seq<char>),
    Download { files: Seq<DownloadView>, dir: Seq<char> },
    DownloadAll { files: Seq<DownloadView>, messages: int, dir: Seq<char> },
}

impl View for CmdAction {
    type V = ActionView;

    open spec fn view(&self) -> ActionView {
        match self {
            CmdAction::Nothing => ActionView::Nothing,
            CmdAction::React { emoji, target_ts, target_author, remove } => ActionView::React {
                emoji: emoji@,
                target_ts: *target_ts,
                target_author: *target_author,
                remove: *remove,
            },
            CmdAction::Stage(path) => ActionView::Stage(path@),
            CmdAction::Download { files, dir } => ActionView::Download {
                files: download_views(files@),
                dir: dir@,
            },
            CmdAction::DownloadAll { files, messages, dir } => ActionView::DownloadAll {
                files: download_views(files@),
                messages: *messages as int,
                dir: dir@,
            },
        }
    }
}

/// Whether a reaction of this account stands, so that the next one takes it
/// back.
pub open spec fn stands(c: ChatView, own_aci: Option<Uuid>, ts: u64, emoji: Seq<char>) -> bool {
    own_aci is Some && c.reactions.has(ts, emoji, own_aci->0)
}

/// The answer to a reaction command, given the emoji that its argument stands
/// for.
pub open spec fn react_step(
    c: ChatView,
    own_aci: Option<Uuid>,
    arg: Seq<char>,
    emoji: Option<Seq<char>>,
) -> (ChatView, ActionView) {
    match quote_at(c.messages, c.selected_message) {
        None => (hinting(c, "no message selected"@), ActionView::Nothing),
        Some((ts, author, _)) => if arg.len() == 0 {
            (hinting(c, reaction_hint_of(c.reactions, ts)), ActionView::Nothing)
        } else {
            match emoji {
                Some(e) => (
                    c,
                    ActionView::React {
                        emoji: e,
                        target_ts: ts,
                        target_author: author,
                        remove: stands(c, own_aci, ts, e),
                    },
                ),
                None => (hinting(c, "unknown emoji: "@ + arg), ActionView::Nothing),
            }
        },
    }
}

/// The answer to the command to save the files of the selected message.
pub open spec fn download_step(c: ChatView, dir: Seq<char>) -> (ChatView, ActionView) {
    match c.selected_message {
        None => (hinting(c, "select a message first (j/k)"@), ActionView::Nothing),
        Some(i) => {
            let files = files_at(c.messages, i as int);
            if files.len() == 0 {
                (hinting(c, "no attachments on selected message"@), ActionView::Nothing)
            } else {
                (c, ActionView::Download { files, dir })
            }
        },
    }
}

/// The answer to the command to save all files of the thread.
pub open spec fn download_all_step(c: ChatView, dir: Seq<char>) -> (ChatView, ActionView) {
    let files = thread_files(c.messages);
    if files.len() == 0 {
        (hinting(c, "no attachments in this chat"@), ActionView::Nothing)
    } else {
        (
            c,
            ActionView::DownloadAll { files, messages: messages_with_files(c.messages), dir },
        )
    }
}

/// The answer to a command in an open chat, other than to quit; `text` is the
/// command as typed, `emoji` what the argument of a reaction stands for.
pub open spec fn chat_command_step(
    c: ChatView,
    own_aci: Option<Uuid>,
    cmd: Option<Command>,
    text: Seq<char>,
    emoji: Option<Seq<char>>,
) -> (ChatView, ActionView) {
    match cmd {
        Some(Command::Quit) => (c, ActionView::Nothing),
        Some(Command::React(arg)) => react_step(c, own_aci, arg, emoji),
        Some(Command::Upload(path)) => if path.len() == 0 {
            (hinting(c, ":upload <path>"@), ActionView::Nothing)
        } else {
            (c, ActionView::Stage(path))
        },
        Some(Command::Download(dir)) => download_step(c, dir),
        Some(Command::DownloadAll(dir)) => download_all_step(c, dir),
        None => (hinting(c, "unknown command: :"@ + text), ActionView::Nothing),
    }
}

/// The answer to a command; there is none without an open chat.
pub open spec fn command_step(
    a: AppView,
    cmd: Option<Command>,
    text: Seq<char>,
    emoji: Option<Seq<char>>,
) -> (AppView, ActionView) {
    match a.chat {
        None => (a, ActionView::Nothing),
        Some(c) => {
            let (d, action) = chat_command_step(c, a.own_aci, cmd, text, emoji);
            (
                AppView { chat: Some(d), quit: a.quit || cmd == Some(Command::Quit), ..a },
                action,
            )
        },
    }
}

/// The contents of a command that may be none.
pub open spec fn colon_view(cmd: Option<ColonCmd>) -> Option<Command> {
    match cmd {
        Some(c) => Some(c@),
        None => None,
    }
}

/// The emoji that the argument of a command stands for.
pub open spec fn command_emoji(cmd: Option<Command>) -> Option<Seq<char>> {
    match cmd {
        Some(Command::React(arg)) => resolved_emoji(arg, emoji_of_shortcode(trim_of(arg))),
        _ => None,
    }
}

impl ChatState {
    fn react(&mut self, own_aci: Option<Uuid>, arg: String, emoji: Option<String>) -> (r: CmdAction)
        requires
            old(self)@.wf(),
        ensures
            (final(self)@, r@) == react_step(old(self)@, own_aci, arg@, opt_text(emoji)),
            final(self)@.wf(),
    {
        match quote_message(&self.messages, self.selected_message) {
            None => {
                self.set_hint("no message selected");
                CmdAction::Nothing
            },
            Some(q) => {
                if arg.as_str().is_empty() {
                    let hint = reaction_hint(&self.reactions, q.ts);
                    self.autocomplete_hint = Some(hint);
                    return CmdAction::Nothing;
                }
                match emoji {
                    Some(e) => {
                        let remove = match own_aci {
                            Some(u) => self.reactions.contains(q.ts, e.as_str(), u),
                            None => false,
                        };
                        CmdAction::React {
                            emoji: e,
                            target_ts: q.ts,
                            target_author: q.author,
                            remove,
                        }
                    },
                    None => {
                        let hint = "unknown emoji: ".to_owned().concat(arg.as_str());
                        self.autocomplete_hint = Some(hint);
                        CmdAction::Nothing
                    },
                }
            },
        }
    }

    fn download(&mut self, dir: String) -> (r: CmdAction)
        requires
            old(self)@.wf(),
        ensures
            (final(self)@, r@) == download_step(old(self)@, dir@),
            final(self)@.wf(),
    {
        match self.selected_message {
            None => {
                self.set_hint("select a message first (j/k)");
                CmdAction::Nothing
            },
            Some(i) => {
                let files = message_downloads(&self.messages, i);
                proof {
                    assert(download_views(files@).len() == files@.len());
                }
                if files.len() == 0 {
                    self.set_hint("no attachments on selected message");
                    CmdAction::Nothing
                } else {
                    CmdAction::Download { files, dir }
                }
            },
        }
    }

    fn download_all(&mut self, dir: String) -> (r: CmdAction)
        requires
            old(self)@.wf(),
        ensures
            (final(self)@, r@) == download_all_step(old(self)@, dir@),
            final(self)@.wf(),
    {
        let (files, messages) = thread_downloads(&self.messages);
        proof {
            assert(download_views(files@).len() == files@.len());
        }
        if files.len() == 0 {
            self.set_hint("no attachments in this chat");
            CmdAction::Nothing
        } else {
            CmdAction::DownloadAll { files, messages, dir }
        }
    }

    /// Takes a file that was asked about: stages it, or shows why it cannot be.
    pub fn on_staged(&mut self, staged: Result<StagedAttachment, String>)
        requires
            old(self)@.wf(),
        ensures
            final(self)@.wf(),
            final(self)@ == (match staged {
                Ok(att) => ChatView { staged: old(self)@.staged.push(att), ..old(self)@ },
                Err(msg) => hinting(old(self)@, msg@),
            }),
    {
        match staged {
            Ok(att) => {
                self.staged_attachments.push(att);
            },
            Err(msg) => {
                self.autocomplete_hint = Some(msg);
            },
        }
    }

    fn run_command(
        &mut self,
        own_aci: Option<Uuid>,
        cmd: Option<ColonCmd>,
        text: &str,
        emoji: Option<String>,
    ) -> (r: CmdAction)
        requires
            old(self)@.wf(),
        ensures
            (final(self)@, r@) == chat_command_step(
                old(self)@,
                own_aci,
                colon_view(cmd),
                text@,
                opt_text(emoji),
            ),
            final(self)@.wf(),
    {
        match cmd {
            Some(ColonCmd::Quit) => CmdAction::Nothing,
            Some(ColonCmd::React(arg)) => self.react(own_aci, arg, emoji),
            Some(ColonCmd::Upload(path)) => {
                if path.as_str().is_empty() {
                    self.set_hint(":upload <path>");
                    CmdAction::Nothing
                } else {
                    CmdAction::Stage(path)
                }
            },
            Some(ColonCmd::Download(dir)) => self.download(dir),
            Some(ColonCmd::DownloadAll(dir)) => self.download_all(dir),
            None => {
                let hint = "unknown command: :".to_owned().concat(text);
                self.autocomplete_hint = Some(hint);
                CmdAction::Nothing
            },
        }
    }
}

impl App {
    /// Answers a command, given what the argument of a reaction stands for.
    pub fn exec_parsed(
        &mut self,
        cmd: Option<ColonCmd>,
        text: &str,
        emoji: Option<String>,
    ) -> (r: CmdAction)
        requires
            old(self)@.wf(),
        ensures
            (final(self)@, r@) == command_step(
                old(self)@,
                colon_view(cmd),
                text@,
                opt_text(emoji),
            ),
            final(self)@.wf(),
            r matches CmdAction::React { emoji: e, target_ts, target_author, remove } ==> {
                let c = old(self)@.chat->0;
                let i = c.selected_message->0 as int;
                &&& old(self)@.chat is Some
                &&& c.selected_message is Some
                &&& i < c.messages.len()
                &&& target_ts == c.messages[i].timestamp
                &&& target_author == c.messages[i].sender
                &&& emoji is Some
                &&& e@ == emoji->0@
                &&& remove == (old(self)@.own_aci is Some && c.reactions.has(
                    c.messages[i].timestamp,
                    emoji->0@,
                    old(self)@.own_aci->0,
                ))
            },
    {
        let own_aci = self.own_aci;
        match &mut self.chat {
            None => CmdAction::Nothing,
            Some(chat) => {
                let quits = match &cmd {
                    Some(ColonCmd::Quit) => true,
                    _ => false,
                };
                let action = chat.run_command(own_aci, cmd, text, emoji);
                if quits {
                    self.quit = true;
                }
                action
            },
        }
    }

    /// Answers a command, given without its colon.
    pub fn exec_cmd(&mut self, text: &str) -> (r: CmdAction)
        requires
            old(self)@.wf(),
        ensures
            (final(self)@, r@) == command_step(
                old(self)@,
                command_of(":"@ + text@),
                text@,
                command_emoji(command_of(":"@ + text@)),
            ),
            final(self)@.wf(),
    {
        let input = ":".to_owned().concat(text);
        let cmd = parse_colon_cmd(input.as_str());
        let emoji = match &cmd {
            Some(ColonCmd::React(arg)) => resolve_emoji(arg.as_str()),
            _ => None,
        };
        self.exec_parsed(cmd, text, emoji)
    }
}

// ── Progress of downloads ────────────────────────────────────────────────────

/// What the status bar shows while the files of one message are saved; nothing
/// for a single file. `index` counts from 0.
pub fn download_progress(index: usize, total: usize) -> (r: Option<String>)
    requires
        index < total,
    ensures
        r is Some <==> total > 1,
        r matches Some(s) ==> s@ == "downloading "@ + decimal_of((index + 1) as nat) + "/"@
            + decimal_of(total as nat) + "…"@,
{
    if total > 1 {
        Some(
            "downloading ".to_owned().concat(decimal((index + 1) as u64).as_str()).concat(
                "/",
            ).concat(decimal(total as u64).as_str()).concat("…"),
        )
    } else {
        None
    }
}

/// What the status bar shows while all files of a thread are saved.
pub fn download_all_progress(
    index: usize,
    total: usize,
    message: usize,
    messages: usize,
) -> (r: String)
    requires
        index < total,
    ensures
        r@ == "downloading "@ + decimal_of((index + 1) as nat) + "/"@ + decimal_of(total as nat)
            + " (message "@ + decimal_of(message as nat) + "/"@ + decimal_of(messages as nat)
            + ")…"@,
{
    "downloading ".to_owned().concat(decimal((index + 1) as u64).as_str()).concat("/").concat(
        decimal(total as u64).as_str(),
    ).concat(" (message ").concat(decimal(message as u64).as_str()).concat("/").concat(
        decimal(messages as u64).as_str(),
    ).concat(")…")
}

/// What the status bar shows when a file of a thread could not be saved.
pub fn download_all_failure(index: usize, cause: &str) -> (r: String)
    requires
        index < usize::MAX,
    ensures
        r@ == "file "@ + decimal_of((index + 1) as nat) + ": "@ + cause@,
{
    "file ".to_owned().concat(decimal((index + 1) as u64).as_str()).concat(": ").concat(cause)
}

/// What the status bar shows when all files were saved.
pub fn download_summary(total: usize, dir: &str) -> (r: String)
    ensures
        r@ == "saved "@ + decimal_of(total as nat) + " file(s) to "@ + dir@,
{
    "saved ".to_owned().concat(decimal(total as u64).as_str()).concat(" file(s) to ").concat(dir)
}

// ── Deleting ─────────────────────────────────────────────────────────────────

/// The message that is to be deleted for everyone: its thread, its time stamp
/// and its place. Only messages of ours can be deleted.
pub open spec fn delete_step(a: AppView) -> (AppView, Option<(Thread, u64, usize)>) {
    match a.chat {
        Some(c) => match c.selected_message {
            Some(i) => if i >= c.messages.len() {
                (a, None)
            } else if is_own(c.messages[i as int], a.own_aci) {
                (a, Some((c.thread, c.messages[i as int].timestamp, i)))
            } else {
                (
                    AppView { chat: Some(hinting(c, "can only delete own messages"@)), ..a },
                    None,
                )
            },
            None => (a, None),
        },
        None => (a, None),
    }
}

/// The chat without the message at a place; the selection stays where it is, or
/// moves to the last message.
pub open spec fn deleted(c: ChatView, i: int) -> ChatView {
    let left = c.messages.remove(i);
    ChatView {
        messages: left,
        selected_message: if left.len() == 0 {
            None
        } else {
            Some(lesser(i, left.len() - 1) as usize)
        },
        ..c
    }
}

impl App {
    /// The message that is to be deleted for everyone.
    pub fn delete_request(&mut self) -> (r: Option<(Thread, u64, usize)>)
        requires
            old(self)@.wf(),
        ensures
            (final(self)@, r) == delete_step(old(self)@),
            final(self)@.wf(),
    {
        let own_aci = self.own_aci;
        match &mut self.chat {
            None => None,
            Some(chat) => match chat.selected_message {
                None => None,
                Some(i) => {
                    if i >= chat.messages.len() {
                        return None;
                    }
                    if is_own_message(&chat.messages[i], own_aci) {
                        Some((chat.thread, chat.messages[i].timestamp, i))
                    } else {
                        chat.set_hint("can only delete own messages");
                        None
                    }
                },
            },
        }
    }
}

impl ChatState {
    /// The selected message was deleted.
    pub fn on_deleted(&mut self, index: usize)
        requires
            old(self)@.wf(),
            old(self)@.selected_message == Some(index),
            index < old(self)@.messages.len(),
        ensures
            final(self)@ == deleted(old(self)@, index as int),
            final(self)@.wf(),
    {
        self.messages.remove(index);
        let n = self.messages.len();
        self.selected_message = if n == 0 {
            None
        } else if index <= n - 1 {
            Some(index)
        } else {
            Some(n - 1)
        };
    }
}

// ── Laws ─────────────────────────────────────────────────────────────────────

/// Reacting with an emoji gives the reaction if it does not stand, and takes it
/// back if it does; no other reaction changes.
pub proof fn law_reacting_toggles(
    c: ChatView,
    records: Seq<Option<Content>>,
    own: Uuid,
    ts: u64,
    emoji: Seq<char>,
    t: u64,
    e: Seq<char>,
    s: Uuid,
)
    requires
        are_reactions_of(c.reactions, records),
    ensures
        ({
            let sent = Reacting {
                sender: own,
                emoji,
                remove: stands(c, Some(own), ts, emoji),
                target_ts: ts,
            };
            let events = events_of(records);
            &&& reacted(events.push(sent), ts, emoji, own) == !reacted(events, ts, emoji, own)
            &&& (t, e, s) != (ts, emoji, own) ==> reacted(events.push(sent), t, e, s) == reacted(
                events,
                t,
                e,
                s,
            )
        }),
{
    let sent = Reacting {
        sender: own,
        emoji,
        remove: stands(c, Some(own), ts, emoji),
        target_ts: ts,
    };
    let events = events_of(records);
    assert(events.push(sent).drop_last() == events);
    assert(c.reactions.has(ts, emoji, own) == reacted(events, ts, emoji, own));
}

/// A command other than to quit, and one without an open chat, does not end the
/// client.
pub proof fn law_only_quit_quits(
    a: AppView,
    cmd: Option<Command>,
    text: Seq<char>,
    emoji: Option<Seq<char>>,
)
    ensures
        command_step(a, cmd, text, emoji).0.quit ==> a.quit || (cmd == Some(Command::Quit)
            && a.chat is Some),
        a.chat is None ==> command_step(a, cmd, text, emoji).0 == a,
{
}

/// The files that are staged again after a failed upload are those that did not
/// fail.
pub proof fn law_failed_file_is_dropped(
    staged: Seq<StagedAttachment>,
    path: Seq<char>,
    att: StagedAttachment,
)
    ensures
        without_path(staged, path).contains(att) <==> staged.contains(att) && att.path@ != path,
    decreases staged.len(),
{
    if staged.len() > 0 {
        let rest = staged.drop_last();
        let last = staged.last();
        law_failed_file_is_dropped(rest, path, att);
        assert(staged.contains(att) <==> rest.contains(att) || att == last) by {
            if rest.contains(att) {
                let i = rest.index_of(att);
                assert(staged[i] == att);
            }
            if att == last {
                assert(staged[staged.len() - 1] == att);
            }
            if staged.contains(att) && att != last {
                let i = staged.index_of(att);
                assert(rest[i] == att);
            }
        }
        let w = without_path(rest, path);
        assert(w.push(last).contains(att) <==> w.contains(att) || att == last) by {
            if w.contains(att) {
                let i = w.index_of(att);
                assert(w.push(last)[i] == att);
            }
            if att == last {
                assert(w.push(last)[w.len() as int] == att);
            }
            if w.push(last).contains(att) && att != last {
                let i = w.push(last).index_of(att);
                assert(w[i] == att);
            }
        }
    }
}

/// Only a message of this account is asked to be deleted, and it is the selected
/// one.
pub proof fn law_only_own_messages_are_deleted(a: AppView)
    requires
        delete_step(a).1 is Some,
    ensures
        ({
            let (thread, ts, i) = delete_step(a).1->0;
            let c = a.chat->0;
            &&& a.chat is Some
            &&& c.selected_message == Some(i)
            &&& i < c.messages.len()
            &&& thread == c.thread
            &&& ts == c.messages[i as int].timestamp
            &&& a.own_aci == Some(c.messages[i as int].sender)
        }),
{
}

/// After the list of threads was replaced, a thread is selected if there is one.
pub proof fn law_refreshed_selection_is_inside(state: ListState, len: int)
    requires
        0 < len <= usize::MAX,
    ensures
        reselected(state, len).selected matches Some(i) && i < len,
        state.selected matches Some(i) ==> i < len ==> reselected(state, len) == state,
{
}

/// A reply quotes the message at its place in the chat, and that message only: its
/// time stamp, its sender and the text that it shows. The message that is quoted
/// does not depend on any other one.
pub proof fn law_quote_is_of_the_message(
    before: Seq<Content>,
    m: Content,
    behind: Seq<Content>,
    i: usize,
)
    requires
        before.len() == i,
    ensures
        quote_at(before + seq![m] + behind, Some(i)) == Some((m.timestamp, m.sender, body_of(m))),
        quote_at(before, Some(i)) is None,
        quote_at(before, None) is None,
{
    let all = before + seq![m] + behind;
    assert(all[i as int] == m);
}

/// What is sent for a draft goes to its chat, now. An edit gives the edited message
/// the draft's text; a reply quotes what it answers; each shows the draft's text
/// without the white space around it.
pub proof fn law_draft_is_sent_as_meant(
    draft: Draft,
    pointers: Vec<AttachmentPointer>,
    revision: u32,
    now: u64,
    out: Outgoing,
    read: Content,
)
    requires
        match (draft.editing, draft.reply) {
            (Some(ts), _) => is_edit(out, draft.thread, ts, trim_of(draft.text@), revision, now),
            (None, Some(q)) => is_reply(
                out,
                draft.thread,
                trim_of(draft.text@),
                q,
                pointers,
                revision,
                now,
            ),
            (None, None) => is_plain(
                out,
                draft.thread,
                trim_of(draft.text@),
                pointers,
                revision,
                now,
            ),
        },
        read.body == out.body,
        trim_of(draft.text@).len() > 0,
    ensures
        out.thread == draft.thread,
        out.timestamp == now,
        draft.editing matches Some(ts) ==> edit_of(read) == Some((ts, trim_of(draft.text@))),
        draft.editing is None ==> body_of(read) == trim_of(draft.text@) && edit_of(read) is None,
        draft.editing is None && draft.reply is Some ==> quote_of(read) == Some(
            (draft.reply->0.author, first_line_of(draft.reply->0.text@)),
        ),
        draft.editing is None && draft.reply is None ==> quote_of(read) is None,
        draft.editing is None ==> data_message_of(read) is Some
            && data_message_of(read)->0.attachments == pointers,
{
    if draft.editing is None && draft.reply is Some {
        law_sent_reply_is_read(
            out,
            read,
            trim_of(draft.text@),
            draft.reply->0,
            pointers,
            revision,
        );
    }
}

/// Taking a draft empties the input and ends the reply and the edit; the staged
/// files go with the draft unless it is an edit, and all else stays.
pub proof fn law_drafting_empties_the_input(c: ChatView)
    ensures
        drafted(c).input.len() == 0,
        drafted(c).cursor == 0,
        drafted(c).reply_to is None,
        drafted(c).editing is None,
        c.editing is None ==> drafted(c).staged.len() == 0,
        c.editing is Some ==> drafted(c).staged == c.staged,
        drafted(c).messages == c.messages,
        drafted(c).selected_message == c.selected_message,
        drafted(c).selected_attachment == c.selected_attachment,
        drafted(c).mode == c.mode,
        drafted(c).thread == c.thread,
        drafted(c).scroll == c.scroll,
        drafted(c).hint == c.hint,
        drafted(c).reactions == c.reactions,
        drafted(c).sender_names == c.sender_names,
{
}

/// After a failed upload the files that did not fail are staged again, in their
/// order, the cause is shown, and a selection stays on a staged file.
pub proof fn law_failed_upload_is_undone(
    c: ChatView,
    a: Seq<StagedAttachment>,
    b: Seq<StagedAttachment>,
    att: StagedAttachment,
    message: Seq<char>,
    path: Seq<char>,
)
    ensures
        without_path(a + b, path) == without_path(a, path) + without_path(b, path),
        without_path(seq![att], path) == (if att.path@ == path {
            Seq::empty()
        } else {
            seq![att]
        }),
        ({
            let d = upload_undone(c, a, message, path);
            let left = without_path(a, path);
            &&& d.staged == left
            &&& d.hint == Some(message)
            &&& d.messages == c.messages
            &&& d.input == c.input
            &&& d.selected_message == c.selected_message
            &&& c.selected_attachment is None || left.len() == 0 ==> d.selected_attachment is None
            &&& c.selected_attachment matches Some(i) ==> i < left.len() ==> d.selected_attachment
                == Some(i)
            &&& c.selected_attachment matches Some(i) ==> i >= left.len() > 0
                ==> d.selected_attachment == Some((left.len() - 1) as usize)
        }),
    decreases b.len(),
{
    reveal_with_fuel(without_path, 2);
    assert(seq![att].drop_last() == Seq::<StagedAttachment>::empty());
    if b.len() == 0 {
        assert(a + b == a);
        assert(without_path(a, path) + Seq::<StagedAttachment>::empty() == without_path(a, path));
    } else {
        law_failed_upload_is_undone(c, a, b.drop_last(), att, message, path);
        assert((a + b).drop_last() == a + b.drop_last());
    }
}

/// A reaction goes to the selected message: to its time stamp and its sender. It is
/// taken back if this account has given it, and given if not. Nothing is reacted to
/// without a selected message, without an emoji, or with an unknown one.
pub proof fn law_reaction_goes_to_the_selected_message(
    a: AppView,
    arg: Seq<char>,
    text: Seq<char>,
    emoji: Option<Seq<char>>,
)
    requires
        a.chat is Some,
    ensures
        ({
            let c = a.chat->0;
            let (b, action) = command_step(a, Some(Command::React(arg)), text, emoji);
            let d = b.chat->0;
            let selected = c.selected_message is Some && c.selected_message->0 < c.messages.len();
            let m = c.messages[c.selected_message->0 as int];
            &&& b.chat is Some
            &&& b == (AppView { chat: Some(d), ..a })
            &&& d == (ChatView { hint: d.hint, ..c })
            &&& selected && arg.len() > 0 && emoji is Some ==> d == c && action
                == (ActionView::React {
                emoji: emoji->0,
                target_ts: m.timestamp,
                target_author: m.sender,
                remove: a.own_aci is Some && c.reactions.has(
                    m.timestamp,
                    emoji->0,
                    a.own_aci->0,
                ),
            })
            &&& !selected ==> action is Nothing && d.hint == Some("no message selected"@)
            &&& selected && arg.len() > 0 && emoji is None ==> action is Nothing && d.hint == Some(
                "unknown emoji: "@ + arg,
            )
            &&& selected && arg.len() == 0 && c.reactions.at(m.timestamp).len() == 0
                ==> action is Nothing && d.hint == Some("(no reactions)"@)
            &&& selected && arg.len() == 0 && c.reactions.at(m.timestamp).len() > 0
                ==> action is Nothing && d.hint == Some(
                join_of(pair_texts(c.reactions.at(m.timestamp)), "  "@),
            )
        }),
{
}

/// The other commands: a file is staged by its path, the attachments of the
/// selected message or of the chat are saved in the directory that is named, and
/// what cannot be done is said. Nothing else in the client changes.
pub proof fn law_commands_do_what_they_say(
    a: AppView,
    arg: Seq<char>,
    text: Seq<char>,
    emoji: Option<Seq<char>>,
)
    requires
        a.chat is Some,
    ensures
        ({
            let c = a.chat->0;
            let quit = command_step(a, Some(Command::Quit), text, emoji);
            let upload = command_step(a, Some(Command::Upload(arg)), text, emoji);
            let save = command_step(a, Some(Command::Download(arg)), text, emoji);
            let save_all = command_step(a, Some(Command::DownloadAll(arg)), text, emoji);
            let unknown = command_step(a, None, text, emoji);
            let said = |s: Seq<char>|
                (
                    AppView { chat: Some(ChatView { hint: Some(s), ..c }), ..a },
                    ActionView::Nothing,
                );
            let i = c.selected_message->0 as int;
            &&& quit == (AppView { quit: true, ..a }, ActionView::Nothing)
            &&& arg.len() > 0 ==> upload == (a, ActionView::Stage(arg))
            &&& arg.len() == 0 ==> upload == said(":upload <path>"@)
            &&& c.selected_message is None ==> save == said("select a message first (j/k)"@)
            &&& c.selected_message is Some && (i >= c.messages.len() || attachments_of(
                c.messages[i],
            ).len() == 0) ==> save == said("no attachments on selected message"@)
            &&& c.selected_message is Some && i < c.messages.len() && attachments_of(
                c.messages[i],
            ).len() > 0 ==> save.0 == a && (save.1 matches ActionView::Download { files, dir }
                && dir == arg && files.len() == attachments_of(c.messages[i]).len() && forall|k: int|
                0 <= k < files.len() ==> (#[trigger] files[k]).message == i && files[k].attachment
                    == k)
            &&& (forall|k: int|
                0 <= k < c.messages.len() ==> attachments_of(#[trigger] c.messages[k]).len() == 0)
                ==> save_all == said("no attachments in this chat"@)
            &&& (exists|k: int|
                0 <= k < c.messages.len() && attachments_of(#[trigger] c.messages[k]).len() > 0)
                ==> save_all.0 == a && (save_all.1 matches ActionView::DownloadAll {
                files,
                messages,
                dir,
            } && dir == arg && files == thread_files(c.messages) && messages
                == messages_with_files(c.messages))
            &&& unknown == said("unknown command: :"@ + text)
        }),
{
    let c = a.chat->0;
    lemma_files_counted(c.messages);
    assert(AppView { chat: Some(c), ..a } == a);
}

proof fn lemma_files_counted(messages: Seq<Content>)
    ensures
        thread_files(messages).len() == 0 <==> forall|k: int|
            0 <= k < messages.len() ==> attachments_of(#[trigger] messages[k]).len() == 0,
    decreases messages.len(),
{
    if messages.len() > 0 {
        let rest = messages.drop_last();
        lemma_files_counted(rest);
        assert forall|k: int| 0 <= k < rest.len() implies #[trigger] messages[k] == rest[k] by {}
        if forall|k: int|
            0 <= k < messages.len() ==> attachments_of(#[trigger] messages[k]).len() == 0 {
            assert forall|k: int| 0 <= k < rest.len() implies attachments_of(
                #[trigger] rest[k],
            ).len() == 0 by {
                assert(rest[k] == messages[k]);
            }
            assert(attachments_of(messages[messages.len() - 1]).len() == 0);
        }
        if thread_files(messages).len() == 0 {
            assert forall|k: int| 0 <= k < messages.len() implies attachments_of(
                #[trigger] messages[k],
            ).len() == 0 by {
                if k < rest.len() {
                    assert(messages[k] == rest[k]);
                }
            }
        }
    }
}

/// A selected message of this account is asked to be deleted; one of someone else
/// is not, and that is said.
pub proof fn law_selected_own_message_is_deleted(a: AppView)
    requires
        a.chat is Some,
    ensures
        ({
            let c = a.chat->0;
            let i = c.selected_message->0;
            let (b, r) = delete_step(a);
            let selected = c.selected_message is Some && i < c.messages.len();
            let own = a.own_aci == Some(c.messages[i as int].sender);
            &&& selected && own ==> r == Some((c.thread, c.messages[i as int].timestamp, i)) && b
                == a
            &&& selected && !own ==> r is None && b == (AppView {
                chat: Some(ChatView { hint: Some("can only delete own messages"@), ..c }),
                ..a
            })
            &&& !selected ==> r is None && b == a
        }),
{
}

/// Deleting takes one message out of the chat and leaves the others in their
/// order; the selection stays at its place, or on the last message.
pub proof fn law_deleting_takes_one_message_out(
    c: ChatView,
    before: Seq<Content>,
    m: Content,
    behind: Seq<Content>,
)
    requires
        c.messages == before + seq![m] + behind,
        c.messages.len() <= usize::MAX,
    ensures
        ({
            let i = before.len() as int;
            let d = deleted(c, i);
            &&& d.messages == before + behind
            &&& behind.len() > 0 ==> d.selected_message == Some(i as usize)
            &&& behind.len() == 0 && before.len() > 0 ==> d.selected_message == Some(
                (i - 1) as usize,
            )
            &&& behind.len() == 0 && before.len() == 0 ==> d.selected_message is None
            &&& d == (ChatView {
                messages: d.messages,
                selected_message: d.selected_message,
                ..c
            })
        }),
{
    let i = before.len() as int;
    assert(c.messages.remove(i) == before + behind);
}

/// When the list of threads was replaced, the selected line stays where it is if it
/// is there, else the last line is selected; without a selection the first one is.
pub proof fn law_refreshed_selection(state: ListState, len: int)
    requires
        0 <= len <= usize::MAX,
    ensures
        len == 0 ==> reselected(state, len) == state,
        len > 0 && state.selected is None ==> reselected(state, len).selected == Some(0usize),
        state.selected matches Some(i) ==> i < len ==> reselected(state, len).selected == Some(i),
        state.selected matches Some(i) ==> i >= len && len > 0 ==> reselected(state, len).selected
            == Some((len - 1) as usize),
        reselected(state, len).offset == state.offset,
{
}

/// A message that was not in the chat before, from someone else, is acknowledged
/// when it comes; one that was there, or that is of this account, is not.
pub proof fn law_what_comes_is_acknowledged(
    before: Seq<Content>,
    after: Seq<Content>,
    own_aci: Option<Uuid>,
    i: int,
)
    requires
        0 <= i < after.len(),
    ensures
        own_aci != Some(after[i].sender) && (forall|j: int|
            0 <= j < before.len() ==> (#[trigger] before[j]).timestamp != after[i].timestamp)
            ==> acks_of(after, own_aci, timestamps_of(before)).contains(after[i].timestamp),
        (exists|j: int|
            0 <= j < before.len() && (#[trigger] before[j]).timestamp == after[i].timestamp)
            ==> !acks_of(after, own_aci, timestamps_of(before)).contains(after[i].timestamp),
{
    law_acks_are_new_messages_of_others(
        after,
        own_aci,
        timestamps_of(before),
        after[i].timestamp,
    );
}

} // verus!
