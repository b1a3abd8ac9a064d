//! The state of the chat window and its answers to keys.

use std::collections::HashSet;

use vstd::prelude::*;

use crate::attach::StagedAttachment;
use crate::command::{
    all_shortcodes, name_tab, name_tab_of, react_tab, react_tab_of, shortcodes_from, Tab, TabView,
};
use crate::complete::{
    candidates_of, completed_paths, completion_candidates, lemma_last_at_bound, mention_start,
    path_query, path_tab, path_tab_of, query_dir, DirEntry,
};
use crate::content::{body_of, message_body, Content};
use crate::cursor::{
    cursor_down, cursor_left, cursor_right, cursor_up, down_of, law_down_moves_one_line,
    law_up_moves_one_line, left_of, line_at, lines_of, right_of, up_of,
};
use crate::ids::{Thread, Uuid};
use crate::input::{
    insert_text, inserted, law_rubbing_out_undoes_typing, lemma_around, lemma_one_char,
    replace_range, replaced, rub_out, rubbed_out,
};
use crate::keys::{KeyCode, KeyEvent};
use crate::reactions::ReactionMap;
use crate::roster::{opt_text, SenderNames};
use crate::text::{
    byte_len, byte_length, char_pos, chars_of, contains_char, is_boundary, is_one_line, join,
    join_of, lemma_boundary_ends, lemma_boundary_within, lemma_char_pos, lemma_line_ends_replaced,
    lemma_trim_end_keeps, offset, replace_line_ends, string_of, strip_prefix, texts, trim, trim_end, trim_end_of, trim_of,
    trim_start, trim_start_of, utf8_width, with_line_ends,
};

verus! {

/// The input mode of the chat window.
pub enum Mode {
    Normal,
    Insert,
    /// Holds the command typed so far, without its colon.
    Command(String),
}

/// The contents of a mode.
pub enum ModeView {
    Normal,
    Insert,
    Command(Seq<char>),
}

impl View for Mode {
    type V = ModeView;

    open spec fn view(&self) -> ModeView {
        match self {
            Mode::Normal => ModeView::Normal,
            Mode::Insert => ModeView::Insert,
            Mode::Command(s) => ModeView::Command(s@),
        }
    }
}

/// An open chat.
pub struct ChatState {
    pub thread: Thread,
    pub thread_name: String,
    pub messages: Vec<Content>,
    /// The number of lines that the view is scrolled up.
    pub scroll: usize,
    pub viewport_height: u16,
    /// The first message in view, set when the chat is drawn.
    pub viewport_top_msg: usize,
    pub input: String,
    /// A byte offset into `input`.
    pub cursor: usize,
    /// A place in `messages`.
    pub selected_message: Option<usize>,
    /// The time stamps of our messages that were delivered.
    pub delivered: HashSet<u64>,
    /// The time stamps of our messages that were read.
    pub read: HashSet<u64>,
    /// What the status bar shows in place of the key hints.
    pub autocomplete_hint: Option<String>,
    pub reactions: ReactionMap,
    pub mode: Mode,
    /// The message that is replied to.
    pub reply_to: Option<usize>,
    /// The message that is edited, by its place and its time stamp.
    pub editing: Option<(usize, u64)>,
    pub sender_names: SenderNames,
    /// Whether `d` was pressed once.
    pub pending_d: bool,
    pub staged_attachments: Vec<StagedAttachment>,
    /// A place in `staged_attachments`; never set together with
    /// `selected_message`.
    pub selected_attachment: Option<usize>,
}

/// The contents of an open chat.
pub struct ChatView {
    pub thread: Thread,
    pub thread_name: Seq<char>,
    pub messages: Seq<Content>,
    pub scroll: usize,
    pub viewport_height: u16,
    pub viewport_top_msg: usize,
    pub input: Seq<char>,
    pub cursor: usize,
    pub selected_message: Option<usize>,
    pub delivered: Set<u64>,
    pub read: Set<u64>,
    pub hint: Option<Seq<char>>,
    pub reactions: ReactionMap,
    pub mode: ModeView,
    pub reply_to: Option<usize>,
    pub editing: Option<(usize, u64)>,
    pub sender_names: Seq<(Uuid, Seq<char>)>,
    pub pending_d: bool,
    pub staged: Seq<StagedAttachment>,
    pub selected_attachment: Option<usize>,
}

impl View for ChatState {
    type V = ChatView;

    open spec fn view(&self) -> ChatView {
        ChatView {
            thread: self.thread,
            thread_name: self.thread_name@,
            messages: self.messages@,
            scroll: self.scroll,
            viewport_height: self.viewport_height,
            viewport_top_msg: self.viewport_top_msg,
            input: self.input@,
            cursor: self.cursor,
            selected_message: self.selected_message,
            delivered: self.delivered@,
            read: self.read@,
            hint: opt_text(self.autocomplete_hint),
            reactions: self.reactions,
            mode: self.mode@,
            reply_to: self.reply_to,
            editing: self.editing,
            sender_names: self.sender_names@,
            pending_d: self.pending_d,
            staged: self.staged_attachments@,
            selected_attachment: self.selected_attachment,
        }
    }
}

impl ChatView {
    /// What holds of an open chat also while its staged files are sent: the
    /// cursor stands between two characters of the input, and at most one of a
    /// message and a staged file is selected.
    pub open spec fn sending_wf(self) -> bool {
        &&& is_boundary(self.input, self.cursor as int)
        &&& self.selected_message is None || self.selected_attachment is None
        &&& self.reactions.wf()
    }

    /// What holds of every open chat: a selected file, moreover, is staged.
    pub open spec fn wf(self) -> bool {
        &&& self.sending_wf()
        &&& self.selected_attachment matches Some(i) ==> i < self.staged.len()
    }
}

/// What is left to do after a key was answered.
pub enum AppCmd {
    OpenChat { thread: Thread, name: String },
    OpenContactBrowser,
    RefreshThreadList,
    SendMessage,
    /// A command without its colon.
    ExecCmd(String),
    DeleteMessage,
    /// The directory that has to be listed to complete a path.
    ListDirectory(String),
}

/// The contents of what is left to do.
pub enum CmdView {
    OpenChat { thread: Thread, name: Seq<char> },
    OpenContactBrowser,
    RefreshThreadList,
    SendMessage,
    ExecCmd(Seq<char>),
    DeleteMessage,
    ListDirectory(Seq<char>),
}

impl View for AppCmd {
    type V = CmdView;

    open spec fn view(&self) -> CmdView {
        match self {
            AppCmd::OpenChat { thread, name } => CmdView::OpenChat { thread: *thread, name: name@ },
            AppCmd::OpenContactBrowser => CmdView::OpenContactBrowser,
            AppCmd::RefreshThreadList => CmdView::RefreshThreadList,
            AppCmd::SendMessage => CmdView::SendMessage,
            AppCmd::ExecCmd(s) => CmdView::ExecCmd(s@),
            AppCmd::DeleteMessage => CmdView::DeleteMessage,
            AppCmd::ListDirectory(s) => CmdView::ListDirectory(s@),
        }
    }
}

/// The contents of what may be left to do.
pub open spec fn cmd_view(cmd: Option<AppCmd>) -> Option<CmdView> {
    match cmd {
        Some(c) => Some(c@),
        None => None,
    }
}

// ── Normal mode ──────────────────────────────────────────────────────────────

/// The chat with a hint on the status bar.
pub open spec fn hinting(c: ChatView, hint: Seq<char>) -> ChatView {
    ChatView { hint: Some(hint), ..c }
}

/// Whether a message was sent by this account.
pub open spec fn is_own(content: Content, own_aci: Option<Uuid>) -> bool {
    own_aci == Some(content.sender)
}

/// The smaller of two places.
pub open spec fn lesser(a: int, b: int) -> int {
    if a <= b {
        a
    } else {
        b
    }
}

/// Nothing is selected any more.
pub open spec fn deselected(c: ChatView) -> ChatView {
    if c.selected_message is Some || c.selected_attachment is Some {
        ChatView {
            selected_message: None,
            selected_attachment: None,
            reply_to: None,
            editing: None,
            ..c
        }
    } else {
        c
    }
}

/// A reply to the selected message is begun.
pub open spec fn replying(c: ChatView) -> ChatView {
    if c.selected_message is Some {
        ChatView {
            reply_to: c.selected_message,
            cursor: byte_len(c.input) as usize,
            mode: ModeView::Insert,
            ..c
        }
    } else {
        hinting(c, "select a message first (j/k)"@)
    }
}

/// The selected message, if it is ours, is put into the input to be edited.
pub open spec fn editing(c: ChatView, own_aci: Option<Uuid>) -> ChatView {
    match c.selected_message {
        None => hinting(c, "select a message first (j/k)"@),
        Some(i) => if i >= c.messages.len() {
            c
        } else if is_own(c.messages[i as int], own_aci) {
            ChatView {
                input: body_of(c.messages[i as int]),
                cursor: byte_len(body_of(c.messages[i as int])) as usize,
                editing: Some((i, c.messages[i as int].timestamp)),
                mode: ModeView::Insert,
                ..c
            }
        } else {
            hinting(c, "can only edit own messages"@)
        },
    }
}

/// The selected staged file, or the selected message, is to go; only the second
/// press does it.
pub open spec fn deleting(c: ChatView) -> (ChatView, Option<CmdView>) {
    match c.selected_attachment {
        Some(i) => if c.pending_d {
            let left = c.staged.remove(i as int);
            (
                ChatView {
                    pending_d: false,
                    staged: left,
                    selected_attachment: if left.len() == 0 {
                        None
                    } else {
                        Some(lesser(i as int, left.len() - 1) as usize)
                    },
                    ..c
                },
                None,
            )
        } else {
            (hinting(ChatView { pending_d: true, ..c }, "d again to remove attachment"@), None)
        },
        None => if c.selected_message is None {
            (hinting(c, "select a message first (j/k)"@), None)
        } else if c.pending_d {
            (ChatView { pending_d: false, ..c }, Some(CmdView::DeleteMessage))
        } else {
            (hinting(ChatView { pending_d: true, ..c }, "d again to delete for everyone"@), None)
        },
    }
}

/// The chat with a message selected.
pub open spec fn on_message(c: ChatView, i: int) -> ChatView {
    ChatView { selected_message: Some(i as usize), selected_attachment: None, ..c }
}

/// The chat with a staged file selected.
pub open spec fn on_attachment(c: ChatView, i: int) -> ChatView {
    ChatView { selected_message: None, selected_attachment: Some(i as usize), ..c }
}

/// The selection one step up: messages and, below them, the staged files form
/// one ring if there are staged files; else the oldest message is the end.
pub open spec fn selected_up(c: ChatView) -> ChatView {
    let last = c.messages.len() - 1;
    if c.messages.len() == 0 {
        c
    } else {
        match (c.selected_attachment, c.selected_message) {
            (Some(i), _) => if i == 0 {
                on_message(c, last)
            } else {
                on_attachment(c, i - 1)
            },
            (None, Some(s)) => if s > 0 {
                on_message(c, s - 1)
            } else if c.staged.len() > 0 {
                on_attachment(c, c.staged.len() - 1)
            } else {
                on_message(c, 0)
            },
            (None, None) => on_message(c, last),
        }
    }
}

/// The selection one step down.
pub open spec fn selected_down(c: ChatView) -> ChatView {
    let last = c.messages.len() - 1;
    if c.messages.len() == 0 {
        c
    } else {
        match (c.selected_attachment, c.selected_message) {
            (Some(i), _) => if i + 1 >= c.staged.len() {
                on_message(c, 0)
            } else {
                on_attachment(c, i + 1)
            },
            (None, Some(s)) => if s >= last && c.staged.len() > 0 {
                on_attachment(c, 0)
            } else {
                on_message(c, lesser(s + 1, last))
            },
            (None, None) => on_message(c, c.viewport_top_msg as int),
        }
    }
}

/// The view one page further up.
pub open spec fn scrolled_up(c: ChatView) -> ChatView {
    ChatView { scroll: lesser(c.scroll + c.viewport_height, usize::MAX as int) as usize, ..c }
}

/// The view one page further down.
pub open spec fn scrolled_down(c: ChatView) -> ChatView {
    ChatView {
        scroll: if c.scroll <= c.viewport_height {
            0
        } else {
            (c.scroll - c.viewport_height) as usize
        },
        ..c
    }
}

/// The answer to a key in Normal mode.
pub open spec fn normal_step(c: ChatView, own_aci: Option<Uuid>, code: KeyCode) -> (
    ChatView,
    Option<CmdView>,
) {
    match code {
        KeyCode::Esc => (deselected(c), None),
        KeyCode::Up => (selected_up(c), None),
        KeyCode::Down => (selected_down(c), None),
        KeyCode::PageUp => (scrolled_up(c), None),
        KeyCode::PageDown => (scrolled_down(c), None),
        KeyCode::Char(ch) => if ch == 'i' {
            (ChatView { mode: ModeView::Insert, ..c }, None)
        } else if ch == ':' {
            (ChatView { mode: ModeView::Command(Seq::empty()), ..c }, None)
        } else if ch == 'r' {
            (replying(c), None)
        } else if ch == 'e' {
            (editing(c, own_aci), None)
        } else if ch == 'd' {
            deleting(c)
        } else if ch == 'k' {
            (selected_up(c), None)
        } else if ch == 'j' {
            (selected_down(c), None)
        } else {
            (c, None)
        },
        _ => (c, None),
    }
}

/// Whether a message was sent by this account.
pub fn is_own_message(content: &Content, own_aci: Option<Uuid>) -> (r: bool)
    ensures
        r == is_own(*content, own_aci),
{
    own_aci == Some(content.sender)
}

impl ChatState {
    /// Shows a text on the status bar.
    pub fn set_hint(&mut self, hint: &str)
        ensures
            final(self)@ == hinting(old(self)@, hint@),
    {
        self.autocomplete_hint = Some(hint.to_owned());
    }

    fn begin_reply(&mut self)
        requires
            old(self)@.wf(),
        ensures
            final(self)@ == replying(old(self)@),
            final(self)@.wf(),
    {
        if self.selected_message.is_some() {
            self.reply_to = self.selected_message;
            self.cursor = byte_length(self.input.as_str());
            self.mode = Mode::Insert;
            proof {
                lemma_boundary_ends(self.input@);
            }
        } else {
            self.set_hint("select a message first (j/k)");
        }
    }

    fn begin_edit(&mut self, own_aci: Option<Uuid>)
        requires
            old(self)@.wf(),
        ensures
            final(self)@ == editing(old(self)@, own_aci),
            final(self)@.wf(),
    {
        match self.selected_message {
            None => {
                self.set_hint("select a message first (j/k)");
            },
            Some(i) => {
                if i < self.messages.len() {
                    if is_own_message(&self.messages[i], own_aci) {
                        let body = message_body(&self.messages[i]);
                        let ts = self.messages[i].timestamp;
                        self.cursor = byte_length(body.as_str());
                        self.input = body;
                        self.editing = Some((i, ts));
                        self.mode = Mode::Insert;
                        proof {
                            lemma_boundary_ends(self.input@);
                        }
                    } else {
                        self.set_hint("can only edit own messages");
                    }
                }
            },
        }
    }

    fn press_delete(&mut self) -> (r: Option<AppCmd>)
        requires
            old(self)@.wf(),
        ensures
            (final(self)@, cmd_view(r)) == deleting(old(self)@),
            final(self)@.wf(),
    {
        match self.selected_attachment {
            Some(i) => {
                if self.pending_d {
                    self.pending_d = false;
                    self.staged_attachments.remove(i);
                    let left = self.staged_attachments.len();
                    self.selected_attachment = if left == 0 {
                        None
                    } else if i <= left - 1 {
                        Some(i)
                    } else {
                        Some(left - 1)
                    };
                } else {
                    self.pending_d = true;
                    self.set_hint("d again to remove attachment");
                }
                None
            },
            None => {
                if self.selected_message.is_none() {
                    self.set_hint("select a message first (j/k)");
                    None
                } else if self.pending_d {
                    self.pending_d = false;
                    Some(AppCmd::DeleteMessage)
                } else {
                    self.pending_d = true;
                    self.set_hint("d again to delete for everyone");
                    None
                }
            },
        }
    }

    fn select_up(&mut self)
        requires
            old(self)@.wf(),
        ensures
            final(self)@ == selected_up(old(self)@),
            final(self)@.wf(),
    {
        let n = self.messages.len();
        if n == 0 {
            return ;
        }
        match self.selected_attachment {
            Some(i) => {
                if i == 0 {
                    self.selected_attachment = None;
                    self.selected_message = Some(n - 1);
                } else {
                    self.selected_attachment = Some(i - 1);
                }
            },
            None => match self.selected_message {
                Some(s) => {
                    let staged = self.staged_attachments.len();
                    if s == 0 && staged > 0 {
                        self.selected_message = None;
                        self.selected_attachment = Some(staged - 1);
                    } else if s > 0 {
                        self.selected_message = Some(s - 1);
                    }
                },
                None => {
                    self.selected_message = Some(n - 1);
                },
            },
        }
    }

    fn select_down(&mut self)
        requires
            old(self)@.wf(),
        ensures
            final(self)@ == selected_down(old(self)@),
            final(self)@.wf(),
    {
        let n = self.messages.len();
        if n == 0 {
            return ;
        }
        match self.selected_attachment {
            Some(i) => {
                if i >= self.staged_attachments.len() - 1 {
                    self.selected_attachment = None;
                    self.selected_message = Some(0);
                } else {
                    self.selected_attachment = Some(i + 1);
                }
            },
            None => match self.selected_message {
                Some(s) => {
                    if s >= n - 1 && self.staged_attachments.len() > 0 {
                        self.selected_message = None;
                        self.selected_attachment = Some(0);
                    } else if s >= n - 1 {
                        self.selected_message = Some(n - 1);
                    } else {
                        self.selected_message = Some(s + 1);
                    }
                },
                None => {
                    self.selected_message = Some(self.viewport_top_msg);
                },
            },
        }
    }

    fn page_up(&mut self)
        ensures
            final(self)@ == scrolled_up(old(self)@),
    {
        let h = self.viewport_height as usize;
        self.scroll = if self.scroll <= usize::MAX - h {
            self.scroll + h
        } else {
            usize::MAX
        };
    }

    fn page_down(&mut self)
        ensures
            final(self)@ == scrolled_down(old(self)@),
    {
        let h = self.viewport_height as usize;
        self.scroll = if self.scroll <= h {
            0
        } else {
            self.scroll - h
        };
    }

    fn on_key_normal(&mut self, own_aci: Option<Uuid>, code: KeyCode) -> (r: Option<AppCmd>)
        requires
            old(self)@.wf(),
        ensures
            (final(self)@, cmd_view(r)) == normal_step(old(self)@, own_aci, code),
            final(self)@.wf(),
    {
        match code {
            KeyCode::Esc => {
                if self.selected_message.is_some() || self.selected_attachment.is_some() {
                    self.selected_message = None;
                    self.selected_attachment = None;
                    self.reply_to = None;
                    self.editing = None;
                }
            },
            KeyCode::Char('i') => {
                self.mode = Mode::Insert;
            },
            KeyCode::Char(':') => {
                let empty = String::new();
                self.mode = Mode::Command(empty);
            },
            KeyCode::Char('r') => self.begin_reply(),
            KeyCode::Char('e') => self.begin_edit(own_aci),
            KeyCode::Char('d') => {
                return self.press_delete();
            },
            KeyCode::Up | KeyCode::Char('k') => self.select_up(),
            KeyCode::Down | KeyCode::Char('j') => self.select_down(),
            KeyCode::PageUp => self.page_up(),
            KeyCode::PageDown => self.page_down(),
            _ => {},
        }
        None
    }
}

// ── Insert mode ──────────────────────────────────────────────────────────────

/// A text was put in at the cursor.
pub open spec fn typed(c: ChatView, t: Seq<char>) -> ChatView {
    ChatView {
        input: inserted(c.input, c.cursor as int, t),
        cursor: (c.cursor + byte_len(t)) as usize,
        ..c
    }
}

/// The character before the cursor, if there is one, was removed.
pub open spec fn rubbed(c: ChatView) -> ChatView {
    ChatView {
        input: rubbed_out(c.input, c.cursor as int),
        cursor: left_of(c.input, c.cursor as int) as usize,
        ..c
    }
}

/// The cursor was moved.
pub open spec fn moved(c: ChatView, b: nat) -> ChatView {
    ChatView { cursor: b as usize, ..c }
}

/// The mention before the cursor was completed if there is one candidate; if
/// there are more, the status bar lists them.
pub open spec fn mention_completed(c: ChatView) -> ChatView {
    let k = char_pos(c.input, c.cursor as int);
    let found = candidates_of(c.input, k, c.sender_names);
    if found.len() == 0 {
        c
    } else if found.len() == 1 {
        let start = offset(c.input, mention_start(c.input, k).unwrap());
        ChatView {
            input: replaced(c.input, start as int, c.cursor as int, found[0]),
            cursor: (start + byte_len(found[0])) as usize,
            hint: None,
            ..c
        }
    } else {
        hinting(c, join_of(found, "  "@))
    }
}

/// The answer to a key in Insert mode.
pub open spec fn insert_step(c: ChatView, key: KeyEvent) -> (ChatView, Option<CmdView>) {
    match key.code {
        KeyCode::Esc => (
            ChatView { mode: ModeView::Normal, input: Seq::empty(), cursor: 0, ..c },
            None,
        ),
        KeyCode::Left => (moved(c, left_of(c.input, c.cursor as int)), None),
        KeyCode::Right => (moved(c, right_of(c.input, c.cursor as int)), None),
        KeyCode::Up => (moved(c, up_of(c.input, c.cursor as int)), None),
        KeyCode::Down => (moved(c, down_of(c.input, c.cursor as int)), None),
        KeyCode::PageUp => (scrolled_up(c), None),
        KeyCode::PageDown => (scrolled_down(c), None),
        KeyCode::Enter => if key.shift || key.alt {
            (typed(c, seq!['\n']), None)
        } else if trim_of(c.input).len() > 0 || c.staged.len() > 0 {
            (c, Some(CmdView::SendMessage))
        } else {
            (c, None)
        },
        KeyCode::Backspace => (rubbed(c), None),
        KeyCode::Char(ch) => if ch == 'h' && key.control {
            (rubbed(c), None)
        } else {
            (typed(c, seq![ch]), None)
        },
        KeyCode::Tab => (mention_completed(c), None),
        KeyCode::Other => (c, None),
    }
}

impl ChatState {
    fn type_text(&mut self, text: &str)
        requires
            old(self)@.wf(),
        ensures
            final(self)@ == typed(old(self)@, text@),
            final(self)@.wf(),
    {
        let (input, cursor) = insert_text(self.input.as_str(), self.cursor, text);
        self.input = input;
        self.cursor = cursor;
    }

    fn type_char(&mut self, c: char)
        requires
            old(self)@.wf(),
        ensures
            final(self)@ == typed(old(self)@, seq![c]),
            final(self)@.wf(),
    {
        let mut text = String::new();
        text.push(c);
        proof {
            assert(text@ == seq![c]);
        }
        self.type_text(text.as_str());
    }

    fn rub(&mut self)
        requires
            old(self)@.wf(),
        ensures
            final(self)@ == rubbed(old(self)@),
            final(self)@.wf(),
    {
        let (input, cursor) = rub_out(self.input.as_str(), self.cursor);
        self.input = input;
        self.cursor = cursor;
    }

    fn complete_mention(&mut self)
        requires
            old(self)@.wf(),
        ensures
            final(self)@ == mention_completed(old(self)@),
            final(self)@.wf(),
    {
        proof {
            lemma_boundary_within(self.input@, self.cursor as int);
        }
        match completion_candidates(self.input.as_str(), self.cursor, &self.sender_names) {
            None => {},
            Some((start, end, candidates)) => {
                if candidates.len() == 1 {
                    proof {
                        assert(texts(candidates@)[0] == candidates@[0]@);
                    }
                    let (input, cursor) = replace_range(
                        self.input.as_str(),
                        start,
                        end,
                        candidates[0].as_str(),
                    );
                    self.input = input;
                    self.cursor = cursor;
                    self.autocomplete_hint = None;
                } else {
                    let hint = join(&candidates, "  ");
                    self.autocomplete_hint = Some(hint);
                }
            },
        }
    }

    fn on_key_insert(&mut self, key: KeyEvent) -> (r: Option<AppCmd>)
        requires
            old(self)@.wf(),
        ensures
            (final(self)@, cmd_view(r)) == insert_step(old(self)@, key),
            final(self)@.wf(),
    {
        match key.code {
            KeyCode::Esc => {
                self.mode = Mode::Normal;
                self.input = String::new();
                self.cursor = 0;
                proof {
                    lemma_boundary_ends(self.input@);
                }
            },
            KeyCode::Left => {
                self.cursor = cursor_left(self.input.as_str(), self.cursor);
            },
            KeyCode::Right => {
                self.cursor = cursor_right(self.input.as_str(), self.cursor);
            },
            KeyCode::Up => {
                self.cursor = cursor_up(self.input.as_str(), self.cursor);
            },
            KeyCode::Down => {
                self.cursor = cursor_down(self.input.as_str(), self.cursor);
            },
            KeyCode::PageUp => self.page_up(),
            KeyCode::PageDown => self.page_down(),
            KeyCode::Enter => {
                if key.shift || key.alt {
                    self.type_char('\n');
                } else if !trim(self.input.as_str()).as_str().is_empty()
                    || self.staged_attachments.len() > 0 {
                    return Some(AppCmd::SendMessage);
                }
            },
            KeyCode::Backspace => self.rub(),
            KeyCode::Char(c) => {
                if c == 'h' && key.control {
                    self.rub();
                } else {
                    self.type_char(c);
                }
            },
            KeyCode::Tab => self.complete_mention(),
            KeyCode::Other => {},
        }
        None
    }
}

// ── Command mode ─────────────────────────────────────────────────────────────

/// The command with a path that is being typed, by its name, and the path so far.
pub open spec fn path_argument(cmd: Seq<char>) -> Option<(Seq<char>, Seq<char>)> {
    if "upload "@.is_prefix_of(cmd) {
        Some(("upload"@, trim_start_of(cmd.skip("upload "@.len() as int))))
    } else if "download-all "@.is_prefix_of(cmd) {
        Some(("download-all"@, trim_start_of(cmd.skip("download-all "@.len() as int))))
    } else if "download "@.is_prefix_of(cmd) {
        Some(("download"@, trim_start_of(cmd.skip("download "@.len() as int))))
    } else {
        None
    }
}

/// The chat after an answer to the Tab key on the command line.
pub open spec fn after_tab(c: ChatView, t: TabView) -> ChatView {
    match t {
        TabView::Nothing => c,
        TabView::Complete(s) => ChatView { mode: ModeView::Command(s), hint: None, ..c },
        TabView::Hint(h) => hinting(c, h),
    }
}

/// The answer to the Tab key on the command line.
pub open spec fn command_tab(c: ChatView, cmd: Seq<char>) -> (ChatView, Option<CmdView>) {
    match path_argument(cmd) {
        Some((_, partial)) => (c, Some(CmdView::ListDirectory(query_dir(partial)))),
        None => if "react "@.is_prefix_of(cmd) {
            let partial = trim_start_of(cmd.skip("react "@.len() as int));
            (after_tab(c, react_tab_of(partial, shortcodes_from(0))), None)
        } else if !cmd.contains(' ') {
            (after_tab(c, name_tab_of(cmd)), None)
        } else {
            (c, None)
        },
    }
}

/// The chat after the directory was listed in which a path is completed.
pub open spec fn listed(c: ChatView, entries: Seq<DirEntry>) -> ChatView {
    match c.mode {
        ModeView::Command(cmd) => match path_argument(cmd) {
            Some((name, partial)) => after_tab(
                c,
                path_tab_of(name, completed_paths(partial, entries)),
            ),
            None => c,
        },
        _ => c,
    }
}

/// The answer to a key in Command mode.
pub open spec fn command_step(c: ChatView, cmd: Seq<char>, code: KeyCode) -> (
    ChatView,
    Option<CmdView>,
) {
    match code {
        KeyCode::Esc => (ChatView { mode: ModeView::Normal, ..c }, None),
        KeyCode::Enter => (
            ChatView { mode: ModeView::Normal, ..c },
            if cmd.len() > 0 {
                Some(CmdView::ExecCmd(cmd))
            } else {
                None
            },
        ),
        KeyCode::Tab => command_tab(c, cmd),
        KeyCode::Backspace => (
            ChatView {
                mode: ModeView::Command(
                    if cmd.len() > 0 {
                        cmd.drop_last()
                    } else {
                        cmd
                    },
                ),
                ..c
            },
            None,
        ),
        KeyCode::Char(ch) => (ChatView { mode: ModeView::Command(cmd.push(ch)), ..c }, None),
        _ => (c, None),
    }
}

fn split_path_command(cmd: &str) -> (r: Option<(&'static str, String)>)
    ensures
        r is Some <==> path_argument(cmd@) is Some,
        r matches Some(p) ==> path_argument(cmd@) == Some((p.0@, p.1@)),
{
    if let Some(rest) = strip_prefix(cmd, "upload ") {
        return Some(("upload", trim_start(rest.as_str())));
    }
    if let Some(rest) = strip_prefix(cmd, "download-all ") {
        return Some(("download-all", trim_start(rest.as_str())));
    }
    if let Some(rest) = strip_prefix(cmd, "download ") {
        return Some(("download", trim_start(rest.as_str())));
    }
    None
}

impl ChatState {
    fn apply_tab(&mut self, tab: Tab)
        requires
            old(self)@.wf(),
        ensures
            final(self)@ == after_tab(old(self)@, tab@),
            final(self)@.wf(),
    {
        match tab {
            Tab::Nothing => {},
            Tab::Complete(s) => {
                self.mode = Mode::Command(s);
                self.autocomplete_hint = None;
            },
            Tab::Hint(h) => {
                self.autocomplete_hint = Some(h);
            },
        }
    }

    fn complete_command(&mut self, cmd: &str) -> (r: Option<AppCmd>)
        requires
            old(self)@.wf(),
        ensures
            (final(self)@, cmd_view(r)) == command_tab(old(self)@, cmd@),
            final(self)@.wf(),
    {
        if let Some((_, partial)) = split_path_command(cmd) {
            return Some(AppCmd::ListDirectory(path_query(partial.as_str()).dir));
        }
        if let Some(rest) = strip_prefix(cmd, "react ") {
            let partial = trim_start(rest.as_str());
            let all = all_shortcodes();
            let tab = react_tab(partial.as_str(), &all);
            self.apply_tab(tab);
        } else if !contains_char(cmd, ' ') {
            let tab = name_tab(cmd);
            self.apply_tab(tab);
        }
        None
    }

    /// Completes the path on the command line, given the entries of the
    /// directory that was asked for.
    pub fn on_directory(&mut self, entries: &Vec<DirEntry>)
        requires
            old(self)@.wf(),
        ensures
            final(self)@ == listed(old(self)@, entries@),
            final(self)@.wf(),
    {
        let mut tab = Tab::Nothing;
        if let Mode::Command(cmd) = &self.mode {
            if let Some((name, partial)) = split_path_command(cmd.as_str()) {
                tab = path_tab(name, partial.as_str(), entries);
            }
        }
        self.apply_tab(tab);
    }

    fn on_key_command(&mut self, cmd: String, code: KeyCode) -> (r: Option<AppCmd>)
        requires
            old(self)@.wf(),
            old(self)@.mode == ModeView::Command(cmd@),
        ensures
            (final(self)@, cmd_view(r)) == command_step(old(self)@, cmd@, code),
            final(self)@.wf(),
    {
        match code {
            KeyCode::Esc => {
                self.mode = Mode::Normal;
            },
            KeyCode::Enter => {
                self.mode = Mode::Normal;
                if !cmd.as_str().is_empty() {
                    return Some(AppCmd::ExecCmd(cmd));
                }
            },
            KeyCode::Tab => {
                return self.complete_command(cmd.as_str());
            },
            KeyCode::Backspace => {
                let chars = chars_of(cmd.as_str());
                let n = chars.len();
                if n > 0 {
                    let rest = string_of(&chars, 0, n - 1);
                    proof {
                        assert(rest@ == cmd@.drop_last());
                    }
                    self.mode = Mode::Command(rest);
                }
            },
            KeyCode::Char(c) => {
                let mut cmd = cmd;
                cmd.push(c);
                self.mode = Mode::Command(cmd);
            },
            _ => {},
        }
        None
    }
}

// ── All modes ────────────────────────────────────────────────────────────────

/// What any key but Tab clears, and what any key but a second `d` takes back.
pub open spec fn settled(c: ChatView, code: KeyCode) -> ChatView {
    ChatView {
        hint: if code == KeyCode::Tab {
            c.hint
        } else {
            None
        },
        pending_d: c.pending_d && c.mode is Normal && code == KeyCode::Char('d'),
        ..c
    }
}

/// The answer to a key in the chat window; `None` in the first place if the chat
/// is closed.
pub open spec fn chat_step(c: ChatView, own_aci: Option<Uuid>, key: KeyEvent) -> (
    Option<ChatView>,
    Option<CmdView>,
) {
    let d = settled(c, key.code);
    match c.mode {
        ModeView::Normal => if key.code == KeyCode::Char('q') || key.code == KeyCode::Char('h')
            || key.code == KeyCode::Left {
            (None, Some(CmdView::RefreshThreadList))
        } else {
            let (e, cmd) = normal_step(d, own_aci, key.code);
            (Some(e), cmd)
        },
        ModeView::Insert => {
            let (e, cmd) = insert_step(d, key);
            (Some(e), cmd)
        },
        ModeView::Command(typed) => {
            let (e, cmd) = command_step(d, typed, key.code);
            (Some(e), cmd)
        },
    }
}

/// The mode of the chat window, with a copy of the command line.
fn copy_mode(mode: &Mode) -> (r: Mode)
    ensures
        r@ == mode@,
{
    match mode {
        Mode::Normal => Mode::Normal,
        Mode::Insert => Mode::Insert,
        Mode::Command(s) => Mode::Command(s.clone()),
    }
}

impl ChatState {
    /// Whether a key closes the chat.
    pub fn closes(&self, code: KeyCode) -> (r: bool)
        ensures
            r == (self@.mode is Normal && (code == KeyCode::Char('q') || code == KeyCode::Char('h')
                || code == KeyCode::Left)),
    {
        match &self.mode {
            Mode::Normal => code == KeyCode::Char('q') || code == KeyCode::Char('h') || code
                == KeyCode::Left,
            _ => false,
        }
    }

    /// Answers a key that does not close the chat.
    pub fn on_key(&mut self, own_aci: Option<Uuid>, key: KeyEvent) -> (r: Option<AppCmd>)
        requires
            old(self)@.wf(),
            chat_step(old(self)@, own_aci, key).0 is Some,
        ensures
            (Some(final(self)@), cmd_view(r)) == chat_step(old(self)@, own_aci, key),
            final(self)@.wf(),
    {
        let mode = copy_mode(&self.mode);
        if key.code != KeyCode::Tab {
            self.autocomplete_hint = None;
        }
        if self.pending_d {
            self.pending_d = match &mode {
                Mode::Normal => key.code == KeyCode::Char('d'),
                _ => false,
            };
        }
        proof {
            assert(self@ == settled(old(self)@, key.code));
        }
        match mode {
            Mode::Normal => self.on_key_normal(own_aci, key.code),
            Mode::Insert => self.on_key_insert(key),
            Mode::Command(cmd) => self.on_key_command(cmd, key.code),
        }
    }
}

/// The chat after a paste: into the input with line feeds for line ends, or onto
/// the command line with spaces for them.
pub open spec fn pasted(c: ChatView, text: Seq<char>) -> ChatView {
    match c.mode {
        ModeView::Insert => typed(c, with_line_ends(text, '\n')),
        ModeView::Command(s) => ChatView {
            mode: ModeView::Command(s + trim_end_of(with_line_ends(text, ' '))),
            ..c
        },
        ModeView::Normal => c,
    }
}

impl ChatState {
    /// Takes a pasted text.
    pub fn on_paste(&mut self, text: &str)
        requires
            old(self)@.wf(),
        ensures
            final(self)@ == pasted(old(self)@, text@),
            final(self)@.wf(),
    {
        match copy_mode(&self.mode) {
            Mode::Normal => {},
            Mode::Insert => {
                let normalized = replace_line_ends(text, '\n');
                self.type_text(normalized.as_str());
            },
            Mode::Command(s) => {
                let single = replace_line_ends(text, ' ');
                let end = trim_end(single.as_str());
                self.mode = Mode::Command(s.concat(end.as_str()));
            },
        }
    }
}

// ── Laws ─────────────────────────────────────────────────────────────────────

/// A message is deleted only by a second `d` in Normal mode, and only a `d` in
/// Normal mode makes the next one the second.
pub proof fn law_deleting_takes_two_presses(c: ChatView, own_aci: Option<Uuid>, key: KeyEvent)
    ensures
        chat_step(c, own_aci, key).1 == Some(CmdView::DeleteMessage) ==> c.pending_d
            && c.mode is Normal && key.code == KeyCode::Char('d'),
        chat_step(c, own_aci, key).0 matches Some(d) ==> d.pending_d ==> c.mode is Normal
            && key.code == KeyCode::Char('d'),
{
}

/// Backspace takes back what typing a character did.
pub proof fn law_backspace_undoes_typing(c: ChatView, ch: char)
    requires
        c.wf(),
        c.cursor + utf8_width(ch) <= usize::MAX,
    ensures
        rubbed(typed(c, seq![ch])) == c,
{
    law_rubbing_out_undoes_typing(c.input, c.cursor as int, ch);
    lemma_one_char(ch);
    let d = typed(c, seq![ch]);
    assert(d.cursor == c.cursor + utf8_width(ch));
    assert(rubbed(d).input == c.input);
    assert(rubbed(d).cursor == c.cursor);
}

/// Leaving Insert mode discards the input, and nothing else in the chat changes
/// but the hint.
pub proof fn law_esc_discards_input(c: ChatView, own_aci: Option<Uuid>, key: KeyEvent)
    requires
        c.mode is Insert,
        key.code == KeyCode::Esc,
    ensures
        chat_step(c, own_aci, key) == (
            Some(
                ChatView {
                    mode: ModeView::Normal,
                    input: Seq::empty(),
                    cursor: 0,
                    hint: None,
                    pending_d: false,
                    ..c
                },
            ),
            None::<CmdView>,
        ),
{
}

/// Whether something is selected that is there.
pub open spec fn has_selection(c: ChatView) -> bool {
    &&& c.wf()
    &&& c.selected_message is Some || c.selected_attachment is Some
    &&& c.selected_message matches Some(i) ==> i < c.messages.len()
}

/// Messages and staged files form a ring: up and down undo each other, wherever
/// the selection is.
pub proof fn law_selection_goes_round(c: ChatView)
    requires
        has_selection(c),
        c.messages.len() > 0,
        c.staged.len() > 0,
        c.messages.len() <= usize::MAX,
        c.staged.len() <= usize::MAX,
    ensures
        selected_up(selected_down(c)) == c,
        selected_down(selected_up(c)) == c,
        has_selection(selected_up(c)),
        has_selection(selected_down(c)),
{
}

/// The place of the selection in the ring of the messages and the staged files.
pub open spec fn ring_place(c: ChatView) -> int {
    match c.selected_attachment {
        Some(i) => c.messages.len() + i,
        None => c.selected_message->0 as int,
    }
}

/// The chat after a number of steps down.
pub open spec fn steps_down(c: ChatView, n: nat) -> ChatView
    decreases n,
{
    if n == 0 {
        c
    } else {
        selected_down(steps_down(c, (n - 1) as nat))
    }
}

proof fn lemma_steps_down(c: ChatView, n: nat)
    requires
        has_selection(c),
        0 < c.messages.len() <= usize::MAX,
        0 < c.staged.len() <= usize::MAX,
        n <= c.messages.len() + c.staged.len(),
    ensures
        ({
            let d = steps_down(c, n);
            let size = c.messages.len() + c.staged.len();
            &&& has_selection(d)
            &&& d == (ChatView {
                selected_message: d.selected_message,
                selected_attachment: d.selected_attachment,
                ..c
            })
            &&& ring_place(d) == (if ring_place(c) + n < size {
                ring_place(c) + n
            } else {
                ring_place(c) + n - size
            })
        }),
    decreases n,
{
    if n > 0 {
        lemma_steps_down(c, (n - 1) as nat);
    }
}

/// One full turn down visits each message and each staged file once, and ends
/// where it began.
pub proof fn law_full_turn_visits_each_once(c: ChatView, place: int)
    requires
        has_selection(c),
        0 < c.messages.len() <= usize::MAX,
        0 < c.staged.len() <= usize::MAX,
        0 <= place < c.messages.len() + c.staged.len(),
    ensures
        exists|n: nat|
            n < c.messages.len() + c.staged.len() && ring_place(#[trigger] steps_down(c, n))
                == place,
        forall|m: nat, n: nat|
            m < n < c.messages.len() + c.staged.len() ==> ring_place(#[trigger] steps_down(c, m))
                != ring_place(#[trigger] steps_down(c, n)),
        steps_down(c, c.messages.len() + c.staged.len()) == c,
{
    let size = c.messages.len() + c.staged.len();
    let n = if place >= ring_place(c) {
        (place - ring_place(c)) as nat
    } else {
        (place - ring_place(c) + size) as nat
    };
    lemma_steps_down(c, n);
    assert(n < size && ring_place(steps_down(c, n)) == place);
    assert forall|m: nat, n: nat| m < n < size implies ring_place(#[trigger] steps_down(c, m))
        != ring_place(#[trigger] steps_down(c, n)) by {
        lemma_steps_down(c, m);
        lemma_steps_down(c, n);
    }
    lemma_steps_down(c, size);
}

/// Without staged files the selection stops at the oldest and at the newest
/// message, and stays on a message.
pub proof fn law_selection_stays_on_messages(c: ChatView)
    requires
        has_selection(c),
        c.staged.len() == 0,
        0 < c.messages.len() <= usize::MAX,
    ensures
        has_selection(selected_up(c)),
        has_selection(selected_down(c)),
        c.selected_message == Some(0usize) ==> selected_up(c) == c,
        c.selected_message->0 == c.messages.len() - 1 ==> selected_down(c) == c,
        c.selected_message->0 > 0 ==> selected_down(selected_up(c)) == c,
        c.selected_message->0 < c.messages.len() - 1 ==> selected_up(selected_down(c)) == c,
{
}

/// A pasted text leaves the command line a single line.
pub proof fn law_pasted_command_is_one_line(c: ChatView, text: Seq<char>)
    requires
        c.mode matches ModeView::Command(s) && is_one_line(s),
    ensures
        pasted(c, text).mode matches ModeView::Command(s) && is_one_line(s),
{
    let t = with_line_ends(text, ' ');
    lemma_line_ends_replaced(text, ' ');
    lemma_trim_end_keeps(t);
}

/// A pasted text brings no carriage return into the input.
pub proof fn law_pasted_text_has_no_carriage_return(c: ChatView, text: Seq<char>)
    requires
        c.mode is Insert,
        c.wf(),
        !c.input.contains('\r'),
    ensures
        !pasted(c, text).input.contains('\r'),
{
    let t = with_line_ends(text, '\n');
    lemma_line_ends_replaced(text, '\n');
    let k = char_pos(c.input, c.cursor as int);
    let all = c.input.take(k) + t + c.input.skip(k);
    assert forall|i: int| 0 <= i < all.len() implies all[i] != '\r' by {
        if i < k {
            assert(c.input.contains(c.input[i]));
        } else if i >= k + t.len() {
            assert(c.input.contains(c.input[i - t.len()]));
        }
    }
}

/// Only a message of this account is put into the input to be edited.
pub proof fn law_only_own_messages_are_edited(c: ChatView, own_aci: Option<Uuid>)
    requires
        editing(c, own_aci).mode != c.mode,
    ensures
        c.selected_message matches Some(i) && i < c.messages.len() && is_own(
            c.messages[i as int],
            own_aci,
        ) && editing(c, own_aci).input == body_of(c.messages[i as int]),
{
}

/// Completing a mention replaces what was typed of it, and nothing before or
/// behind it; the cursor moves behind the mention.
pub proof fn law_completion_keeps_the_rest(c: ChatView)
    requires
        c.wf(),
        candidates_of(c.input, char_pos(c.input, c.cursor as int), c.sender_names).len() == 1,
        byte_len(mention_completed(c).input) <= usize::MAX,
    ensures
        ({
            let k = char_pos(c.input, c.cursor as int);
            let at = mention_start(c.input, k).unwrap();
            let mention = candidates_of(c.input, k, c.sender_names)[0];
            let d = mention_completed(c);
            &&& 0 <= at < k
            &&& d.input == c.input.take(at) + mention + c.input.skip(k)
            &&& d.input.take(at + mention.len()) == c.input.take(at) + mention
            &&& d.cursor == offset(d.input, (at + mention.len()) as int)
        }),
{
    let k = char_pos(c.input, c.cursor as int);
    let at = mention_start(c.input, k).unwrap();
    let mention = candidates_of(c.input, k, c.sender_names)[0];
    let d = mention_completed(c);
    lemma_last_at_bound(c.input.take(k));
    lemma_char_pos(c.input, at);
    lemma_around(c.input.take(at), mention, c.input.skip(k));
    assert(d.input.take(at + mention.len()) == c.input.take(at) + mention);
}

// ── What each key does ───────────────────────────────────────────────────────

/// The chat without a hint, and without a first `d`: what is left of both when
/// another key is pressed.
pub open spec fn calmed(c: ChatView) -> ChatView {
    ChatView { hint: None, pending_d: false, ..c }
}

/// `q`, `h` and Left close a chat in Normal mode, and only there; no other key does.
pub proof fn law_chat_closes_in_normal_mode(c: ChatView, own_aci: Option<Uuid>, key: KeyEvent)
    ensures
        ({
            let r = chat_step(c, own_aci, key);
            let closes = c.mode is Normal && (key.code == KeyCode::Char('q') || key.code
                == KeyCode::Char('h') || key.code == KeyCode::Left);
            &&& closes ==> r == (None::<ChatView>, Some(CmdView::RefreshThreadList))
            &&& !closes ==> r.0 is Some && r.1 != Some(CmdView::RefreshThreadList)
        }),
{
}

/// In Normal mode `i` begins to insert and `:` a command; `r` replies to the
/// selected message, and Esc gives the selection up with the reply and the edit.
pub proof fn law_normal_mode_begins_input(c: ChatView, own_aci: Option<Uuid>, key: KeyEvent)
    requires
        c.mode is Normal,
    ensures
        ({
            let r = chat_step(c, own_aci, key);
            let d = calmed(c);
            let none = None::<CmdView>;
            &&& key.code == KeyCode::Char('i') ==> r == (
                Some(ChatView { mode: ModeView::Insert, ..d }),
                none,
            )
            &&& key.code == KeyCode::Char(':') ==> r == (
                Some(ChatView { mode: ModeView::Command(Seq::empty()), ..d }),
                none,
            )
            &&& key.code == KeyCode::Char('r') && c.selected_message is Some ==> r == (
                Some(
                    ChatView {
                        mode: ModeView::Insert,
                        reply_to: c.selected_message,
                        cursor: byte_len(c.input) as usize,
                        ..d
                    },
                ),
                none,
            )
            &&& key.code == KeyCode::Char('r') && c.selected_message is None ==> r == (
                Some(ChatView { hint: Some("select a message first (j/k)"@), ..d }),
                none,
            )
            &&& key.code == KeyCode::Esc && (c.selected_message is Some
                || c.selected_attachment is Some) ==> r == (
                Some(
                    ChatView {
                        selected_message: None,
                        selected_attachment: None,
                        reply_to: None,
                        editing: None,
                        ..d
                    },
                ),
                none,
            )
            &&& key.code == KeyCode::Esc && c.selected_message is None
                && c.selected_attachment is None ==> r == (Some(d), none)
        }),
{
}

/// In Normal mode `e` puts the text of the selected message into the input if it is
/// of this account, and remembers which message it is; else it says why not.
pub proof fn law_normal_mode_edits(c: ChatView, own_aci: Option<Uuid>, key: KeyEvent)
    requires
        c.mode is Normal,
        key.code == KeyCode::Char('e'),
    ensures
        ({
            let r = chat_step(c, own_aci, key);
            let d = calmed(c);
            let none = None::<CmdView>;
            let i = c.selected_message->0;
            let m = c.messages[i as int];
            let there = c.selected_message is Some && i < c.messages.len();
            &&& there && own_aci == Some(m.sender) ==> r == (
                Some(
                    ChatView {
                        mode: ModeView::Insert,
                        input: body_of(m),
                        cursor: byte_len(body_of(m)) as usize,
                        editing: Some((i, m.timestamp)),
                        ..d
                    },
                ),
                none,
            )
            &&& there && own_aci != Some(m.sender) ==> r == (
                Some(ChatView { hint: Some("can only edit own messages"@), ..d }),
                none,
            )
            &&& c.selected_message is None ==> r == (
                Some(ChatView { hint: Some("select a message first (j/k)"@), ..d }),
                none,
            )
            &&& c.selected_message is Some && !there ==> r == (Some(d), none)
        }),
{
}

/// In Normal mode the first `d` asks for a second one; the second one deletes the
/// selected message, or takes the selected file out and leaves the others in their
/// order.
pub proof fn law_normal_mode_deletes(
    c: ChatView,
    own_aci: Option<Uuid>,
    key: KeyEvent,
    before: Seq<StagedAttachment>,
    att: StagedAttachment,
    behind: Seq<StagedAttachment>,
)
    requires
        c.mode is Normal,
        key.code == KeyCode::Char('d'),
        c.staged.len() <= usize::MAX,
    ensures
        ({
            let r = chat_step(c, own_aci, key);
            let d = calmed(c);
            let none = None::<CmdView>;
            let at_file = c.selected_attachment == Some(before.len() as usize) && c.staged == before
                + seq![att] + behind;
            &&& c.selected_attachment is Some && !c.pending_d ==> r == (
                Some(
                    ChatView {
                        pending_d: true,
                        hint: Some("d again to remove attachment"@),
                        ..d
                    },
                ),
                none,
            )
            &&& at_file && c.pending_d ==> r == (
                Some(
                    ChatView {
                        staged: before + behind,
                        selected_attachment: if behind.len() > 0 {
                            c.selected_attachment
                        } else if before.len() > 0 {
                            Some((before.len() - 1) as usize)
                        } else {
                            None
                        },
                        ..d
                    },
                ),
                none,
            )
            &&& c.selected_attachment is None && c.selected_message is None ==> r.0 == Some(
                ChatView {
                    hint: Some("select a message first (j/k)"@),
                    pending_d: c.pending_d,
                    ..d
                },
            ) && r.1 is None
            &&& c.selected_attachment is None && c.selected_message is Some && !c.pending_d ==> r
                == (
                Some(
                    ChatView {
                        pending_d: true,
                        hint: Some("d again to delete for everyone"@),
                        ..d
                    },
                ),
                none,
            )
            &&& c.selected_attachment is None && c.selected_message is Some && c.pending_d ==> r
                == (Some(d), Some(CmdView::DeleteMessage))
        }),
{
    if c.selected_attachment == Some(before.len() as usize) && c.staged == before + seq![att]
        + behind {
        assert(c.staged.remove(before.len() as int) == before + behind);
    }
}

/// In Normal mode Up and `k` select the message above, Down and `j` the one below.
/// The first Up selects the newest message, the first Down the first one in view.
/// Above the oldest and below the newest message stand the staged files.
pub proof fn law_normal_mode_moves_the_selection(
    c: ChatView,
    own_aci: Option<Uuid>,
    key: KeyEvent,
)
    requires
        c.mode is Normal,
        c.wf(),
        c.messages.len() <= usize::MAX,
        c.staged.len() <= usize::MAX,
    ensures
        ({
            let r = chat_step(c, own_aci, key);
            let d = r.0->0;
            let up = key.code == KeyCode::Up || key.code == KeyCode::Char('k');
            let down = key.code == KeyCode::Down || key.code == KeyCode::Char('j');
            let last = c.messages.len() - 1;
            let on_message = |i: int|
                Some(
                    ChatView {
                        selected_message: Some(i as usize),
                        selected_attachment: None,
                        ..calmed(c)
                    },
                );
            let on_file = |i: int|
                Some(
                    ChatView {
                        selected_message: None,
                        selected_attachment: Some(i as usize),
                        ..calmed(c)
                    },
                );
            &&& up || down ==> r.1 is None
            &&& (up || down) && c.messages.len() == 0 ==> r.0 == Some(calmed(c))
            &&& c.messages.len() > 0 && c.selected_message is None && c.selected_attachment is None
                ==> (up ==> r.0 == on_message(last)) && (down ==> r.0 == on_message(
                c.viewport_top_msg as int,
            ))
            &&& c.messages.len() > 0 && c.selected_attachment is None ==> (
            c.selected_message matches Some(i) ==> {
                &&& up && i > 0 ==> r.0 == on_message(i - 1)
                &&& up && i == 0 && c.staged.len() == 0 ==> r.0 == on_message(0)
                &&& up && i == 0 && c.staged.len() > 0 ==> r.0 == on_file(c.staged.len() - 1)
                &&& down && i < last ==> r.0 == on_message(i + 1)
                &&& down && i >= last && c.staged.len() == 0 ==> r.0 == on_message(last)
                &&& down && i >= last && c.staged.len() > 0 ==> r.0 == on_file(0)
            })
            &&& c.messages.len() > 0 ==> (c.selected_attachment matches Some(i) ==> {
                &&& up && i > 0 ==> r.0 == on_file(i - 1)
                &&& up && i == 0 ==> r.0 == on_message(last)
                &&& down && i + 1 < c.staged.len() ==> r.0 == on_file(i + 1)
                &&& down && i + 1 >= c.staged.len() ==> r.0 == on_message(0)
            })
        }),
{
}

/// PgUp and PgDn scroll by the height of the view, in Normal mode and while a text
/// is typed; the view does not go below the newest line.
pub proof fn law_pages_scroll_by_the_view(c: ChatView, own_aci: Option<Uuid>, key: KeyEvent)
    requires
        !(c.mode is Command),
    ensures
        key.code == KeyCode::PageUp && c.scroll + c.viewport_height <= usize::MAX ==> chat_step(
            c,
            own_aci,
            key,
        ) == (
            Some(ChatView { scroll: (c.scroll + c.viewport_height) as usize, ..calmed(c) }),
            None::<CmdView>,
        ),
        key.code == KeyCode::PageDown && c.scroll >= c.viewport_height ==> chat_step(
            c,
            own_aci,
            key,
        ) == (
            Some(ChatView { scroll: (c.scroll - c.viewport_height) as usize, ..calmed(c) }),
            None::<CmdView>,
        ),
        key.code == KeyCode::PageDown && c.scroll < c.viewport_height ==> chat_step(
            c,
            own_aci,
            key,
        ) == (Some(ChatView { scroll: 0, ..calmed(c) }), None::<CmdView>),
{
}

/// In Normal mode a key without a meaning changes nothing but the hint.
pub proof fn law_normal_mode_passes_over_other_keys(
    c: ChatView,
    own_aci: Option<Uuid>,
    key: KeyEvent,
)
    requires
        c.mode is Normal,
        match key.code {
            KeyCode::Char(ch) => ch != 'q' && ch != 'h' && ch != 'i' && ch != ':' && ch != 'r'
                && ch != 'e' && ch != 'd' && ch != 'k' && ch != 'j',
            KeyCode::Enter | KeyCode::Tab | KeyCode::Backspace | KeyCode::Right | KeyCode::Other => true,
            _ => false,
        },
    ensures
        chat_step(c, own_aci, key).1 is None,
        key.code != KeyCode::Tab ==> chat_step(c, own_aci, key).0 == Some(calmed(c)),
        key.code == KeyCode::Tab ==> chat_step(c, own_aci, key).0 == Some(
            ChatView { hint: c.hint, ..calmed(c) },
        ),
{
}

/// A character is typed where the cursor is: between what stands before it and what
/// stands behind it. The cursor moves behind it. Shift or Alt with Enter types a line
/// feed.
pub proof fn law_typing_inserts_at_the_cursor(
    c: ChatView,
    own_aci: Option<Uuid>,
    key: KeyEvent,
    before: Seq<char>,
    behind: Seq<char>,
    ch: char,
)
    requires
        c.mode is Insert,
        c.input == before + behind,
        c.cursor == byte_len(before),
        (key.code == KeyCode::Char(ch) && !(ch == 'h' && key.control)) || (key.code
            == KeyCode::Enter && (key.shift || key.alt) && ch == '\n'),
        byte_len(before.push(ch)) <= usize::MAX,
    ensures
        chat_step(c, own_aci, key) == (
            Some(
                ChatView {
                    input: before.push(ch) + behind,
                    cursor: byte_len(before.push(ch)) as usize,
                    ..calmed(c)
                },
            ),
            None::<CmdView>,
        ),
{
    lemma_split_at_cursor(before, behind);
    lemma_one_char(ch);
    assert(before.push(ch).drop_last() == before);
    assert(before + seq![ch] + behind == before.push(ch) + behind);
    let d = chat_step(c, own_aci, key).0->0;
    assert(d.input == before.push(ch) + behind);
}

proof fn lemma_split_at_cursor(before: Seq<char>, behind: Seq<char>)
    ensures
        ({
            let s = before + behind;
            let k = before.len() as int;
            &&& is_boundary(s, byte_len(before) as int)
            &&& char_pos(s, byte_len(before) as int) == k
            &&& s.take(k) == before
            &&& s.skip(k) == behind
        }),
{
    let s = before + behind;
    assert(s.take(before.len() as int) == before);
    assert(s.skip(before.len() as int) == behind);
    lemma_char_pos(s, before.len() as int);
}

/// Backspace, and Control with `h`, take the character before the cursor out; at the
/// start there is none.
pub proof fn law_backspace_takes_one_character(
    c: ChatView,
    own_aci: Option<Uuid>,
    key: KeyEvent,
    before: Seq<char>,
    ch: char,
    behind: Seq<char>,
)
    requires
        c.mode is Insert,
        key.code == KeyCode::Backspace || (key.code == KeyCode::Char('h') && key.control),
    ensures
        c.input == before.push(ch) + behind && c.cursor == byte_len(before.push(ch)) ==> chat_step(
            c,
            own_aci,
            key,
        ) == (
            Some(
                ChatView {
                    input: before + behind,
                    cursor: byte_len(before) as usize,
                    ..calmed(c)
                },
            ),
            None::<CmdView>,
        ),
        c.cursor == 0 ==> chat_step(c, own_aci, key) == (Some(calmed(c)), None::<CmdView>),
{
    lemma_boundary_ends(c.input);
    if c.cursor == 0 {
        lemma_char_pos(c.input, 0);
    }
    if c.input == before.push(ch) + behind && c.cursor == byte_len(before.push(ch)) {
        lemma_split_at_cursor(before.push(ch), behind);
        assert(before.push(ch) + behind == before + (seq![ch] + behind));
        lemma_split_at_cursor(before, seq![ch] + behind);
        assert(c.input.remove(before.len() as int) == before + behind);
        assert(c.input.take(before.len() as int) == before);
        assert(before.push(ch).drop_last() == before);
        let d = chat_step(c, own_aci, key).0->0;
        assert(d.input == before + behind);
        assert(d.cursor == byte_len(before));
    }
}

/// Left and Right move the cursor by a character, and not past the ends; nothing else
/// changes.
pub proof fn law_arrows_move_by_a_character(
    c: ChatView,
    own_aci: Option<Uuid>,
    key: KeyEvent,
    before: Seq<char>,
    ch: char,
    behind: Seq<char>,
)
    requires
        c.mode is Insert,
        byte_len(c.input) <= usize::MAX,
        key.code == KeyCode::Left || key.code == KeyCode::Right,
    ensures
        ({
            let r = chat_step(c, own_aci, key).0;
            let at = |n: nat| Some(ChatView { cursor: n as usize, ..calmed(c) });
            let inside = c.input == before.push(ch) + behind;
            &&& chat_step(c, own_aci, key).1 is None
            &&& key.code == KeyCode::Left && inside && c.cursor == byte_len(before.push(ch)) ==> r
                == at(byte_len(before))
            &&& key.code == KeyCode::Left && c.cursor == 0 ==> r == at(0)
            &&& key.code == KeyCode::Right && inside && c.cursor == byte_len(before) ==> r == at(
                byte_len(before.push(ch)),
            )
            &&& key.code == KeyCode::Right && c.cursor == byte_len(c.input) ==> r == at(
                byte_len(c.input),
            )
        }),
{
    let s = c.input;
    if c.cursor == 0 {
        lemma_boundary_ends(s);
        lemma_char_pos(s, 0);
    }
    if s == before.push(ch) + behind {
        lemma_split_at_cursor(before.push(ch), behind);
        assert(before.push(ch) + behind == before + (seq![ch] + behind));
        lemma_split_at_cursor(before, seq![ch] + behind);
        assert(before.push(ch).drop_last() == before);
        assert(s.take(before.len() as int) == before);
        assert(s.take(before.len() as int + 1) == before.push(ch));
        lemma_boundary_within(s, byte_len(before.push(ch)) as int);
    }
}

/// Up and Down move the cursor by a line, and not past the ends; nothing else
/// changes.
pub proof fn law_arrows_move_by_a_line(c: ChatView, own_aci: Option<Uuid>, key: KeyEvent)
    requires
        c.mode is Insert,
        c.wf(),
        byte_len(c.input) <= usize::MAX,
        key.code == KeyCode::Up || key.code == KeyCode::Down,
    ensures
        ({
            let (r, cmd) = chat_step(c, own_aci, key);
            let line = line_at(c.input, c.cursor as int);
            let up = key.code == KeyCode::Up;
            let stops = if up {
                line == 0
            } else {
                line + 1 >= lines_of(c.input).len()
            };
            &&& cmd is None
            &&& r is Some
            &&& r->0 == (ChatView { cursor: r->0.cursor, ..calmed(c) })
            &&& stops ==> r->0.cursor == c.cursor
            &&& r->0.cursor == (if up {
                up_of(c.input, c.cursor as int)
            } else {
                down_of(c.input, c.cursor as int)
            })
            &&& !stops && up ==> line_at(c.input, r->0.cursor as int) == line - 1
            &&& !stops && !up ==> line_at(c.input, r->0.cursor as int) == line + 1
        }),
{
    let s = c.input;
    let b = c.cursor as int;
    lemma_boundary_within(s, b);
    if key.code == KeyCode::Up && line_at(s, b) > 0 {
        law_up_moves_one_line(s, b);
        lemma_boundary_within(s, up_of(s, b) as int);
    }
    if key.code == KeyCode::Down && line_at(s, b) + 1 < lines_of(s).len() {
        law_down_moves_one_line(s, b);
        lemma_boundary_within(s, down_of(s, b) as int);
    }
    crate::cursor::lemma_line_at(s, b);
}

/// Enter sends if there is something to send, a text that is not blank or a staged
/// file; else it does nothing. The chat stays as it is until the draft is taken.
pub proof fn law_enter_sends(c: ChatView, own_aci: Option<Uuid>, key: KeyEvent)
    requires
        c.mode is Insert,
        key.code == KeyCode::Enter,
        !key.shift,
        !key.alt,
    ensures
        chat_step(c, own_aci, key).0 == Some(calmed(c)),
        c.staged.len() > 0 || (exists|i: int|
            0 <= i < c.input.len() && !crate::text::is_white(#[trigger] c.input[i])) ==> chat_step(
            c,
            own_aci,
            key,
        ).1 == Some(CmdView::SendMessage),
        c.staged.len() == 0 && (forall|i: int|
            0 <= i < c.input.len() ==> crate::text::is_white(#[trigger] c.input[i])) ==> chat_step(
            c,
            own_aci,
            key,
        ).1 is None,
{
    crate::text::law_blank_text_trims_to_nothing(c.input);
}

/// Only Enter sends, and only while a text is typed; only Enter runs a command.
pub proof fn law_only_enter_sends(c: ChatView, own_aci: Option<Uuid>, key: KeyEvent)
    ensures
        chat_step(c, own_aci, key).1 == Some(CmdView::SendMessage) ==> c.mode is Insert && key.code
            == KeyCode::Enter,
        chat_step(c, own_aci, key).1 matches Some(CmdView::ExecCmd(text)) ==> key.code
            == KeyCode::Enter && c.mode == ModeView::Command(text),
        !(chat_step(c, own_aci, key).1 matches Some(CmdView::OpenChat { .. })),
        chat_step(c, own_aci, key).1 != Some(CmdView::OpenContactBrowser),
{
}

/// Tab completes the only name that a mention can mean; of several it lists them,
/// and without any it does nothing.
pub proof fn law_tab_completes_mentions(c: ChatView, own_aci: Option<Uuid>, key: KeyEvent)
    requires
        c.mode is Insert,
        key.code == KeyCode::Tab,
    ensures
        ({
            let r = chat_step(c, own_aci, key);
            let k = char_pos(c.input, c.cursor as int);
            let found = candidates_of(c.input, k, c.sender_names);
            let d = ChatView { pending_d: false, ..c };
            &&& r.1 is None
            &&& found.len() == 0 ==> r.0 == Some(d)
            &&& found.len() > 1 ==> r.0 == Some(
                ChatView { hint: Some(join_of(found, "  "@)), ..d },
            )
            &&& found.len() == 1 ==> r.0 == Some(
                ChatView {
                    input: mention_completed(c).input,
                    cursor: mention_completed(c).cursor,
                    hint: None,
                    ..d
                },
            )
        }),
{
}

/// On the command line characters are typed and taken back at the end; Enter runs
/// what was typed, if anything was, and Esc gives it up.
pub proof fn law_command_line_is_edited(
    c: ChatView,
    own_aci: Option<Uuid>,
    key: KeyEvent,
    typed: Seq<char>,
    ch: char,
)
    requires
        c.mode == ModeView::Command(typed),
    ensures
        ({
            let r = chat_step(c, own_aci, key);
            let d = calmed(c);
            let none = None::<CmdView>;
            &&& key.code == KeyCode::Char(ch) ==> r == (
                Some(ChatView { mode: ModeView::Command(typed.push(ch)), ..d }),
                none,
            )
            &&& key.code == KeyCode::Backspace && typed.len() > 0 ==> r == (
                Some(ChatView { mode: ModeView::Command(typed.drop_last()), ..d }),
                none,
            )
            &&& key.code == KeyCode::Backspace && typed.len() == 0 ==> r == (Some(d), none)
            &&& key.code == KeyCode::Esc ==> r == (
                Some(ChatView { mode: ModeView::Normal, ..d }),
                none,
            )
            &&& key.code == KeyCode::Enter && typed.len() > 0 ==> r == (
                Some(ChatView { mode: ModeView::Normal, ..d }),
                Some(CmdView::ExecCmd(typed)),
            )
            &&& key.code == KeyCode::Enter && typed.len() == 0 ==> r == (
                Some(ChatView { mode: ModeView::Normal, ..d }),
                none,
            )
            &&& key.code == KeyCode::Left || key.code == KeyCode::Right || key.code == KeyCode::Up
                || key.code == KeyCode::Down || key.code == KeyCode::PageUp || key.code
                == KeyCode::PageDown || key.code == KeyCode::Other ==> r == (Some(d), none)
        }),
{
}

/// Tab on the command line: for the path of a command that takes one, the directory
/// has to be listed; else shortcodes and names of commands are completed.
pub proof fn law_tab_completes_commands(
    c: ChatView,
    own_aci: Option<Uuid>,
    key: KeyEvent,
    typed: Seq<char>,
    arg: Seq<char>,
)
    requires
        c.mode == ModeView::Command(typed),
        key.code == KeyCode::Tab,
    ensures
        ({
            let r = chat_step(c, own_aci, key);
            let d = ChatView { pending_d: false, ..c };
            let takes_path = typed == "upload "@ + arg || typed == "download "@ + arg || typed
                == "download-all "@ + arg;
            let completed = |t: TabView|
                match t {
                    TabView::Nothing => (Some(d), None::<CmdView>),
                    TabView::Complete(s) => (
                        Some(ChatView { mode: ModeView::Command(s), hint: None, ..d }),
                        None,
                    ),
                    TabView::Hint(h) => (Some(ChatView { hint: Some(h), ..d }), None),
                };
            &&& takes_path ==> r == (
                Some(d),
                Some(CmdView::ListDirectory(query_dir(trim_start_of(arg)))),
            )
            &&& typed == "react "@ + arg ==> r == completed(
                react_tab_of(trim_start_of(arg), shortcodes_from(0)),
            )
            &&& !typed.contains(' ') ==> r == completed(name_tab_of(typed))
        }),
{
    lemma_command_prefixes();
    lemma_prefixed("upload "@, arg);
    lemma_prefixed("download "@, arg);
    lemma_prefixed("download-all "@, arg);
    lemma_prefixed("react "@, arg);
    if typed == "download "@ + arg {
        assert(typed[0] == 'd');
        assert(typed[8] == ' ');
    }
    if typed == "download-all "@ + arg {
        assert(typed[0] == 'd');
    }
    if typed == "react "@ + arg {
        assert(typed[0] == 'r');
    }
    if typed == "upload "@ + arg {
        assert(typed[0] == 'u');
    }
    if "upload "@.is_prefix_of(typed) {
        assert(typed.take(7)[0] == 'u' && typed.take(7)[6] == ' ');
        assert(typed[6] == ' ');
    }
    if "download "@.is_prefix_of(typed) {
        assert(typed.take(9)[0] == 'd' && typed.take(9)[8] == ' ');
        assert(typed[8] == ' ');
    }
    if "download-all "@.is_prefix_of(typed) {
        assert(typed.take(13)[0] == 'd' && typed.take(13)[12] == ' ' && typed.take(13)[8] == '-');
        assert(typed[12] == ' ');
    }
    if "react "@.is_prefix_of(typed) {
        assert(typed.take(6)[0] == 'r' && typed.take(6)[5] == ' ');
        assert(typed[5] == ' ');
    }
}

proof fn lemma_command_prefixes()
    ensures
        "upload "@.len() == 7,
        "upload "@[0] == 'u',
        "upload "@[6] == ' ',
        "download "@.len() == 9,
        "download "@[0] == 'd',
        "download "@[8] == ' ',
        "download-all "@.len() == 13,
        "download-all "@[0] == 'd',
        "download-all "@[8] == '-',
        "download-all "@[12] == ' ',
        "react "@.len() == 6,
        "react "@[0] == 'r',
        "react "@[5] == ' ',
{
    reveal_strlit("upload ");
    reveal_strlit("download ");
    reveal_strlit("download-all ");
    reveal_strlit("react ");
}

proof fn lemma_prefixed(head: Seq<char>, arg: Seq<char>)
    ensures
        head.is_prefix_of(head + arg),
        (head + arg).skip(head.len() as int) == arg,
        forall|i: int| 0 <= i < head.len() ==> (head + arg)[i] == #[trigger] head[i],
{
    assert((head + arg).take(head.len() as int) == head);
    assert((head + arg).skip(head.len() as int) == arg);
}

/// When the directory was listed, the path of the command is completed from its
/// entries; without such a command on the line nothing happens.
pub proof fn law_listed_directory_completes_the_path(
    c: ChatView,
    entries: Seq<DirEntry>,
    typed: Seq<char>,
    name: Seq<char>,
    arg: Seq<char>,
)
    requires
        c.mode == ModeView::Command(typed),
        typed == name + " "@ + arg,
        name == "upload"@ || name == "download"@ || name == "download-all"@,
    ensures
        ({
            let found = completed_paths(trim_start_of(arg), entries);
            &&& found.len() == 0 ==> listed(c, entries) == c
            &&& found.len() == 1 ==> listed(c, entries) == (ChatView {
                mode: ModeView::Command(name + " "@ + found[0]),
                hint: None,
                ..c
            })
            &&& found.len() > 1 ==> listed(c, entries) == (ChatView {
                hint: Some(join_of(crate::complete::path_labels(found), "  "@)),
                ..c
            })
        }),
{
    lemma_command_prefixes();
    reveal_strlit("upload");
    reveal_strlit("download");
    reveal_strlit("download-all");
    reveal_strlit("upload ");
    reveal_strlit("download ");
    reveal_strlit("download-all ");
    reveal_strlit(" ");
    assert("upload"@ + " "@ == "upload "@);
    assert("download"@ + " "@ == "download "@);
    assert("download-all"@ + " "@ == "download-all "@);
    lemma_prefixed(name + " "@, arg);
    if "upload "@.is_prefix_of(typed) {
        assert(typed.take(7)[0] == 'u');
        assert(typed[0] == 'u');
    }
    if "download-all "@.is_prefix_of(typed) {
        assert(typed.take(13)[8] == '-');
        assert(typed[8] == '-');
    }
    if name == "upload"@ {
        assert((name + " "@)[0] == 'u');
    } else if name == "download"@ {
        assert((name + " "@)[0] == 'd');
        assert((name + " "@)[8] == ' ');
    } else {
        assert((name + " "@)[0] == 'd');
    }
}

/// A pasted text goes to the cursor while a text is typed, with line feeds for its
/// line ends; to the end of the command line, on one line and without white space at
/// its end; and nowhere in Normal mode.
pub proof fn law_pasted_text_goes_to_the_cursor(
    c: ChatView,
    text: Seq<char>,
    before: Seq<char>,
    behind: Seq<char>,
    typed: Seq<char>,
)
    ensures
        c.mode is Insert && c.input == before + behind && c.cursor == byte_len(before) && byte_len(
            before + with_line_ends(text, '\n'),
        ) <= usize::MAX ==> pasted(c, text) == (ChatView {
            input: before + with_line_ends(text, '\n') + behind,
            cursor: byte_len(before + with_line_ends(text, '\n')) as usize,
            ..c
        }),
        c.mode == ModeView::Command(typed) ==> pasted(c, text) == (ChatView {
            mode: ModeView::Command(typed + trim_end_of(with_line_ends(text, ' '))),
            ..c
        }),
        c.mode is Normal ==> pasted(c, text) == c,
{
    lemma_split_at_cursor(before, behind);
    crate::text::lemma_byte_len_concat(before, with_line_ends(text, '\n'));
}

} // verus!
