//! The state of the client and its answers to keys, pastes and messages.

use std::collections::HashSet;

use vstd::prelude::*;

use crate::chat::{
    chat_step, cmd_view, lesser, pasted, AppCmd, ChatState, ChatView, CmdView, Mode, ModeView,
};
use crate::content::{body_of, extract_update, Content, MessageUpdate, Received};
use crate::ids::{uuid_text, Thread, Uuid};
use crate::keys::{KeyCode, KeyEvent, KeyEventKind};
use crate::order::{is_stable_sort, lemma_stable_sort_keeps, orders, picked};
use crate::reactions::ReactionMap;
use crate::roster::{
    entry_views, more_recent, opt_text, sort_by_recency, threads_differ, SenderNames, ThreadEntry,
    ThreadView,
};
use crate::screen;
use crate::text::lemma_boundary_ends;

verus! {

/// The selected line of a list and the first line in view.
#[derive(Clone, Copy, Debug, PartialEq, Eq, Structural)]
pub struct ListState {
    pub offset: usize,
    pub selected: Option<usize>,
}

impl ListState {
    /// Nothing selected.
    pub fn new() -> (r: ListState)
        ensures
            r == (ListState { offset: 0, selected: None }),
    {
        ListState { offset: 0, selected: None }
    }

    /// Selects a line, or none; with none the list is shown from its start.
    pub fn select(&mut self, index: Option<usize>)
        ensures
            final(self).selected == index,
            final(self).offset == (if index is None {
                0
            } else {
                old(self).offset
            }),
    {
        self.selected = index;
        if index.is_none() {
            self.offset = 0;
        }
    }
}

/// The client.
pub struct App {
    pub threads: Vec<ThreadEntry>,
    pub list_state: ListState,
    pub quit: bool,
    pub view: screen::View,
    pub chat: Option<ChatState>,
    pub own_aci: Option<Uuid>,
    pub data_dir: String,
    /// The contacts, then the groups.
    pub contacts: Vec<ThreadEntry>,
    /// The number of contacts.
    pub contacts_split: usize,
    pub contact_list_state: ListState,
}

/// The contents of the client.
pub struct AppView {
    pub threads: Seq<ThreadView>,
    pub list_state: ListState,
    pub quit: bool,
    pub view: screen::View,
    pub chat: Option<ChatView>,
    pub own_aci: Option<Uuid>,
    pub data_dir: Seq<char>,
    pub contacts: Seq<ThreadView>,
    pub contacts_split: usize,
    pub contact_list_state: ListState,
}

/// The contents of a chat that may be open.
pub open spec fn chat_view(chat: Option<ChatState>) -> Option<ChatView> {
    match chat {
        Some(c) => Some(c@),
        None => None,
    }
}

impl View for App {
    type V = AppView;

    open spec fn view(&self) -> AppView {
        AppView {
            threads: entry_views(self.threads@),
            list_state: self.list_state,
            quit: self.quit,
            view: self.view,
            chat: chat_view(self.chat),
            own_aci: self.own_aci,
            data_dir: self.data_dir@,
            contacts: entry_views(self.contacts@),
            contacts_split: self.contacts_split,
            contact_list_state: self.contact_list_state,
        }
    }
}

impl AppView {
    /// What holds of every client: its chat, if one is open, is well formed.
    pub open spec fn wf(self) -> bool {
        self.chat matches Some(c) ==> c.wf()
    }
}

// ── The chat list ────────────────────────────────────────────────────────────

/// The chat list with a line selected, or its last line if there is no such
/// line.
pub open spec fn list_selecting(a: AppView, i: int) -> AppView {
    if a.threads.len() == 0 {
        a
    } else {
        AppView {
            list_state: ListState {
                selected: Some(lesser(i, a.threads.len() - 1) as usize),
                ..a.list_state
            },
            ..a
        }
    }
}

/// The line that lies a number of lines below the selected one; the first line
/// if none is selected.
pub open spec fn line_below(state: ListState, n: int) -> int {
    match state.selected {
        Some(i) => i + n,
        None => 0,
    }
}

/// The line that lies a number of lines above the selected one, or the first
/// line.
pub open spec fn line_above(state: ListState, n: int) -> int {
    match state.selected {
        Some(i) => if i >= n {
            i - n
        } else {
            0
        },
        None => 0,
    }
}

/// The command that opens the thread of a line, if there is such a line.
pub open spec fn opening(lines: Seq<ThreadView>, i: int) -> Option<CmdView> {
    if 0 <= i < lines.len() {
        Some(CmdView::OpenChat { thread: lines[i].thread, name: lines[i].name })
    } else {
        None
    }
}

/// The answer to a key in the chat list.
pub open spec fn list_step(a: AppView, key: KeyEvent) -> (AppView, Option<CmdView>) {
    let down = (list_selecting(a, line_below(a.list_state, 1)), None);
    let up = (list_selecting(a, line_above(a.list_state, 1)), None);
    let open = (
        a,
        match a.list_state.selected {
            Some(i) => opening(a.threads, i as int),
            None => None,
        },
    );
    match key.code {
        KeyCode::Char(ch) => if ch == 'q' || ch == 'Q' || (ch == 'c' && key.control) {
            (AppView { quit: true, ..a }, None)
        } else if ch == 'j' {
            down
        } else if ch == 'k' {
            up
        } else if ch == 'n' {
            (a, Some(CmdView::OpenContactBrowser))
        } else if ch == 'l' {
            open
        } else {
            (a, None)
        },
        KeyCode::Down => down,
        KeyCode::Up => up,
        KeyCode::PageDown => (list_selecting(a, line_below(a.list_state, 10)), None),
        KeyCode::PageUp => (list_selecting(a, line_above(a.list_state, 10)), None),
        KeyCode::Enter => open,
        KeyCode::Right => open,
        _ => (a, None),
    }
}

/// The sum of two places, or the greatest place there is.
fn far(i: usize, n: usize) -> (r: usize)
    ensures
        r == lesser(i + n, usize::MAX as int),
{
    if i <= usize::MAX - n {
        i + n
    } else {
        usize::MAX
    }
}

fn open_line(lines: &Vec<ThreadEntry>, i: usize) -> (r: Option<AppCmd>)
    ensures
        cmd_view(r) == opening(entry_views(lines@), i as int),
{
    if i < lines.len() {
        Some(AppCmd::OpenChat { thread: lines[i].thread, name: lines[i].name.clone() })
    } else {
        None
    }
}

impl App {
    /// A client that shows the given threads.
    pub fn new(threads: Vec<ThreadEntry>, own_aci: Option<Uuid>, data_dir: String) -> (r: App)
        ensures
            r@.wf(),
            r@ == (AppView {
                threads: entry_views(threads@),
                list_state: ListState {
                    offset: 0,
                    selected: if threads@.len() > 0 {
                        Some(0)
                    } else {
                        None
                    },
                },
                quit: false,
                view: screen::View::ChatList,
                chat: None,
                own_aci,
                data_dir: data_dir@,
                contacts: Seq::empty(),
                contacts_split: 0,
                contact_list_state: ListState { offset: 0, selected: None },
            }),
    {
        let mut list_state = ListState::new();
        if threads.len() > 0 {
            list_state.select(Some(0));
        }
        let contacts: Vec<ThreadEntry> = Vec::new();
        proof {
            assert(entry_views(contacts@) == Seq::<ThreadView>::empty());
        }
        App {
            threads,
            list_state,
            quit: false,
            view: screen::View::ChatList,
            chat: None,
            own_aci,
            data_dir,
            contacts,
            contacts_split: 0,
            contact_list_state: ListState::new(),
        }
    }

    fn select(&mut self, i: usize)
        ensures
            final(self)@ == list_selecting(old(self)@, i as int),
    {
        let n = self.threads.len();
        if n == 0 {
            return ;
        }
        let line = if i <= n - 1 {
            i
        } else {
            n - 1
        };
        self.list_state.select(Some(line));
    }

    fn select_below(&mut self, n: usize)
        ensures
            final(self)@ == list_selecting(old(self)@, line_below(old(self)@.list_state, n as int)),
    {
        let len = self.threads.len();
        let line = match self.list_state.selected {
            Some(i) => far(i, n),
            None => 0,
        };
        proof {
            assert(self@.threads.len() == len);
        }
        self.select(line);
    }

    fn select_above(&mut self, n: usize)
        ensures
            final(self)@ == list_selecting(old(self)@, line_above(old(self)@.list_state, n as int)),
    {
        let line = match self.list_state.selected {
            Some(i) => if i >= n {
                i - n
            } else {
                0
            },
            None => 0,
        };
        self.select(line);
    }

    fn open_selected(&self) -> (r: Option<AppCmd>)
        ensures
            cmd_view(r) == (match self@.list_state.selected {
                Some(i) => opening(self@.threads, i as int),
                None => None,
            }),
    {
        match self.list_state.selected {
            Some(i) => open_line(&self.threads, i),
            None => None,
        }
    }

    fn on_key_list(&mut self, key: KeyEvent) -> (r: Option<AppCmd>)
        ensures
            (final(self)@, cmd_view(r)) == list_step(old(self)@, key),
    {
        match key.code {
            KeyCode::Char('q') | KeyCode::Char('Q') => {
                self.quit = true;
                None
            },
            KeyCode::Char('c') if key.control => {
                self.quit = true;
                None
            },
            KeyCode::Down | KeyCode::Char('j') => {
                self.select_below(1);
                None
            },
            KeyCode::Up | KeyCode::Char('k') => {
                self.select_above(1);
                None
            },
            KeyCode::PageDown => {
                self.select_below(10);
                None
            },
            KeyCode::PageUp => {
                self.select_above(10);
                None
            },
            KeyCode::Char('n') => Some(AppCmd::OpenContactBrowser),
            KeyCode::Enter | KeyCode::Right | KeyCode::Char('l') => self.open_selected(),
            _ => None,
        }
    }
}

// ── The contact browser ──────────────────────────────────────────────────────

/// Whether a separator stands between the contacts and the groups.
pub open spec fn has_separator(a: AppView) -> bool {
    0 < a.contacts_split < a.contacts.len()
}

/// The last line of the contact browser.
pub open spec fn last_line(a: AppView) -> int {
    if has_separator(a) {
        a.contacts.len() as int
    } else if a.contacts.len() > 0 {
        a.contacts.len() - 1
    } else {
        0
    }
}

/// The contact browser with a line selected.
pub open spec fn browser_selecting(a: AppView, i: int) -> AppView {
    AppView {
        contact_list_state: ListState { selected: Some(i as usize), ..a.contact_list_state },
        ..a
    }
}

/// The line that the contact browser is on.
pub open spec fn browser_line(a: AppView) -> int {
    match a.contact_list_state.selected {
        Some(i) => i as int,
        None => 0,
    }
}

/// A number of lines further down, past the separator.
pub open spec fn browser_below(a: AppView, n: int) -> AppView {
    let next = lesser(browser_line(a) + n, last_line(a));
    browser_selecting(
        a,
        if has_separator(a) && next == a.contacts_split {
            next + 1
        } else {
            next
        },
    )
}

/// A number of lines further up, past the separator.
pub open spec fn browser_above(a: AppView, n: int) -> AppView {
    let prev = if browser_line(a) >= n {
        browser_line(a) - n
    } else {
        0
    };
    browser_selecting(
        a,
        if has_separator(a) && prev == a.contacts_split {
            prev - 1
        } else {
            prev
        },
    )
}

/// The entry that a line of the contact browser shows; -1 for the separator.
pub open spec fn entry_on_line(a: AppView, i: int) -> int {
    if !has_separator(a) || i < a.contacts_split {
        i
    } else if i == a.contacts_split {
        -1
    } else {
        i - 1
    }
}

/// The answer to a key in the contact browser.
pub open spec fn browser_step(a: AppView, key: KeyEvent) -> (AppView, Option<CmdView>) {
    let back = (a, Some(CmdView::RefreshThreadList));
    let down = (browser_below(a, 1), None);
    let up = if browser_line(a) == 0 {
        (a, None)
    } else {
        (browser_above(a, 1), None)
    };
    let open = (
        a,
        match a.contact_list_state.selected {
            Some(i) => opening(a.contacts, entry_on_line(a, i as int)),
            None => None,
        },
    );
    match key.code {
        KeyCode::Esc => back,
        KeyCode::Left => back,
        KeyCode::Char(ch) => if ch == 'q' || ch == 'Q' || ch == 'h' {
            back
        } else if ch == 'c' && key.control {
            (AppView { quit: true, ..a }, None)
        } else if ch == 'j' {
            down
        } else if ch == 'k' {
            up
        } else if ch == 'l' {
            open
        } else {
            (a, None)
        },
        KeyCode::Down => down,
        KeyCode::Up => up,
        KeyCode::PageDown => (browser_below(a, 10), None),
        KeyCode::PageUp => (browser_above(a, 10), None),
        KeyCode::Enter => open,
        KeyCode::Right => open,
        _ => (a, None),
    }
}

impl App {
    fn separated(&self) -> (r: bool)
        ensures
            r == has_separator(self@),
    {
        self.contacts_split > 0 && self.contacts_split < self.contacts.len()
    }

    fn current_line(&self) -> (r: usize)
        ensures
            r == browser_line(self@),
    {
        match self.contact_list_state.selected {
            Some(i) => i,
            None => 0,
        }
    }

    fn browse_below(&mut self, n: usize)
        ensures
            final(self)@ == browser_below(old(self)@, n as int),
    {
        let len = self.contacts.len();
        let separated = self.separated();
        let last = if separated {
            len
        } else if len > 0 {
            len - 1
        } else {
            0
        };
        let far_line = far(self.current_line(), n);
        let mut next = if far_line <= last {
            far_line
        } else {
            last
        };
        if separated && next == self.contacts_split {
            next = next + 1;
        }
        self.contact_list_state.select(Some(next));
    }

    fn browse_above(&mut self, n: usize)
        ensures
            final(self)@ == browser_above(old(self)@, n as int),
    {
        let line = self.current_line();
        let mut prev = if line >= n {
            line - n
        } else {
            0
        };
        if self.separated() && prev == self.contacts_split {
            prev = prev - 1;
        }
        self.contact_list_state.select(Some(prev));
    }

    fn open_browsed(&self) -> (r: Option<AppCmd>)
        ensures
            cmd_view(r) == (match self@.contact_list_state.selected {
                Some(i) => opening(self@.contacts, entry_on_line(self@, i as int)),
                None => None,
            }),
    {
        match self.contact_list_state.selected {
            None => None,
            Some(i) => {
                if self.separated() {
                    if i < self.contacts_split {
                        open_line(&self.contacts, i)
                    } else if i == self.contacts_split {
                        None
                    } else {
                        open_line(&self.contacts, i - 1)
                    }
                } else {
                    open_line(&self.contacts, i)
                }
            },
        }
    }

    /// Answers a key in the contact browser; gives what is left to do.
    pub fn on_key_contacts(&mut self, key: KeyEvent) -> (r: Option<AppCmd>)
        ensures
            (final(self)@, cmd_view(r)) == browser_step(old(self)@, key),
    {
        match key.code {
            KeyCode::Esc
            | KeyCode::Char('q')
            | KeyCode::Char('Q')
            | KeyCode::Char('h')
            | KeyCode::Left => Some(AppCmd::RefreshThreadList),
            KeyCode::Char('c') if key.control => {
                self.quit = true;
                None
            },
            KeyCode::Down | KeyCode::Char('j') => {
                self.browse_below(1);
                None
            },
            KeyCode::Up | KeyCode::Char('k') => {
                if self.current_line() > 0 {
                    self.browse_above(1);
                }
                None
            },
            KeyCode::PageDown => {
                self.browse_below(10);
                None
            },
            KeyCode::PageUp => {
                self.browse_above(10);
                None
            },
            KeyCode::Enter | KeyCode::Char('l') | KeyCode::Right => self.open_browsed(),
            _ => None,
        }
    }
}

// ── Keys, pastes and messages ────────────────────────────────────────────────

/// The answer to a key in the chat window.
pub open spec fn window_step(a: AppView, key: KeyEvent) -> (AppView, Option<CmdView>) {
    match a.chat {
        None => (a, None),
        Some(c) => {
            let (chat, cmd) = chat_step(c, a.own_aci, key);
            (AppView { chat, ..a }, cmd)
        },
    }
}

/// The answer to a key.
pub open spec fn key_step(a: AppView, key: KeyEvent) -> (AppView, Option<CmdView>) {
    if key.kind != KeyEventKind::Press {
        (a, None)
    } else {
        match a.view {
            screen::View::ChatList => list_step(a, key),
            screen::View::ChatWindow => window_step(a, key),
            screen::View::ContactBrowser => browser_step(a, key),
        }
    }
}

/// The list of threads after a message: its thread shows the message, and is
/// unread if the message is the newest; a new thread with a contact is added;
/// `None` if nothing changes.
pub open spec fn with_update(
    threads: Seq<ThreadView>,
    thread: Thread,
    preview: Seq<char>,
    ts: u64,
) -> Option<Seq<ThreadView>>
    decreases threads.len(),
{
    if threads.len() == 0 {
        match thread {
            Thread::Contact(sid) => Some(
                seq![
                    ThreadView {
                        thread,
                        name: uuid_text(sid.uuid()),
                        last_preview: Some(preview),
                        last_ts: ts,
                        unread: true,
                    },
                ],
            ),
            Thread::Group(_) => None,
        }
    } else if threads[0].thread == thread {
        let t = threads[0];
        Some(
            threads.update(
                0,
                ThreadView {
                    last_preview: Some(preview),
                    last_ts: if ts > t.last_ts {
                        ts
                    } else {
                        t.last_ts
                    },
                    unread: t.unread || ts > t.last_ts,
                    ..t
                },
            ),
        )
    } else {
        match with_update(threads.drop_first(), thread, preview, ts) {
            Some(rest) => Some(seq![threads[0]] + rest),
            None => None,
        }
    }
}

/// The threads before they are put in order when something was received; `None`
/// if nothing changes.
pub open spec fn threads_after(threads: Seq<ThreadView>, received: Received) -> Option<
    Seq<ThreadView>,
> {
    match received {
        Received::Content(c) => if c.thread is Some && body_of(c).len() > 0 {
            with_update(threads, c.thread->0, body_of(c), c.timestamp)
        } else {
            None
        },
        _ => None,
    }
}

proof fn lemma_with_update(
    threads: Seq<ThreadView>,
    thread: Thread,
    preview: Seq<char>,
    ts: u64,
    i: int,
)
    requires
        0 <= i <= threads.len(),
        forall|j: int| 0 <= j < i ==> (#[trigger] threads[j]).thread != thread,
        i < threads.len() ==> threads[i].thread == thread,
    ensures
        with_update(threads, thread, preview, ts) == (if i < threads.len() {
            let t = threads[i];
            Some(
                threads.update(
                    i,
                    ThreadView {
                        last_preview: Some(preview),
                        last_ts: if ts > t.last_ts {
                            ts
                        } else {
                            t.last_ts
                        },
                        unread: t.unread || ts > t.last_ts,
                        ..t
                    },
                ),
            )
        } else {
            match thread {
                Thread::Contact(sid) => Some(
                    threads.push(
                        ThreadView {
                            thread,
                            name: uuid_text(sid.uuid()),
                            last_preview: Some(preview),
                            last_ts: ts,
                            unread: true,
                        },
                    ),
                ),
                Thread::Group(_) => None,
            }
        }),
    decreases threads.len(),
{
    if threads.len() == 0 {
        if let Thread::Contact(sid) = thread {
            let e = ThreadView {
                thread,
                name: uuid_text(sid.uuid()),
                last_preview: Some(preview),
                last_ts: ts,
                unread: true,
            };
            assert(threads.push(e) == seq![e]);
        }
    } else if i > 0 {
        let rest = threads.drop_first();
        assert forall|j: int| 0 <= j < i - 1 implies (#[trigger] rest[j]).thread != thread by {
            assert(rest[j] == threads[j + 1]);
        }
        lemma_with_update(rest, thread, preview, ts, i - 1);
        if i < threads.len() {
            let t = threads[i];
            let u = ThreadView {
                last_preview: Some(preview),
                last_ts: if ts > t.last_ts {
                    ts
                } else {
                    t.last_ts
                },
                unread: t.unread || ts > t.last_ts,
                ..t
            };
            assert(seq![threads[0]] + rest.update(i - 1, u) == threads.update(i, u));
        } else if let Thread::Contact(sid) = thread {
            let e = ThreadView {
                thread,
                name: uuid_text(sid.uuid()),
                last_preview: Some(preview),
                last_ts: ts,
                unread: true,
            };
            assert(seq![threads[0]] + rest.push(e) == threads.push(e));
        }
    }
}

impl App {
    /// Opens a chat.
    pub fn open_chat(
        &mut self,
        thread: Thread,
        thread_name: String,
        messages: Vec<Content>,
        delivered: HashSet<u64>,
        read: HashSet<u64>,
        reactions: ReactionMap,
        sender_names: SenderNames,
    )
        requires
            reactions.wf(),
        ensures
            final(self)@ == (AppView {
                view: screen::View::ChatWindow,
                chat: Some(
                    ChatView {
                        thread,
                        thread_name: thread_name@,
                        messages: messages@,
                        scroll: 0,
                        viewport_height: 0,
                        viewport_top_msg: 0,
                        input: Seq::empty(),
                        cursor: 0,
                        selected_message: None,
                        delivered: delivered@,
                        read: read@,
                        hint: None,
                        reactions,
                        mode: ModeView::Normal,
                        reply_to: None,
                        editing: None,
                        sender_names: sender_names@,
                        pending_d: false,
                        staged: Seq::empty(),
                        selected_attachment: None,
                    },
                ),
                ..old(self)@
            }),
            final(self)@.wf(),
    {
        self.chat = Some(
            ChatState {
                thread,
                thread_name,
                messages,
                scroll: 0,
                viewport_height: 0,
                viewport_top_msg: 0,
                input: String::new(),
                cursor: 0,
                selected_message: None,
                delivered,
                read,
                autocomplete_hint: None,
                reactions,
                mode: Mode::Normal,
                reply_to: None,
                editing: None,
                sender_names,
                pending_d: false,
                staged_attachments: Vec::new(),
                selected_attachment: None,
            },
        );
        self.view = screen::View::ChatWindow;
        proof {
            lemma_boundary_ends(Seq::<char>::empty());
        }
    }

    fn on_key_chat(&mut self, key: KeyEvent) -> (r: Option<AppCmd>)
        requires
            old(self)@.wf(),
        ensures
            (final(self)@, cmd_view(r)) == window_step(old(self)@, key),
            final(self)@.wf(),
    {
        let closes = match &self.chat {
            None => {
                return None;
            },
            Some(chat) => chat.closes(key.code),
        };
        if closes {
            self.chat = None;
            return Some(AppCmd::RefreshThreadList);
        }
        let own_aci = self.own_aci;
        match &mut self.chat {
            None => None,
            Some(chat) => chat.on_key(own_aci, key),
        }
    }

    /// Answers a key; gives what is left to do.
    pub fn on_key(&mut self, key: KeyEvent) -> (r: Option<AppCmd>)
        requires
            old(self)@.wf(),
        ensures
            (final(self)@, cmd_view(r)) == key_step(old(self)@, key),
            final(self)@.wf(),
    {
        if key.kind != KeyEventKind::Press {
            return None;
        }
        match self.view {
            screen::View::ChatList => self.on_key_list(key),
            screen::View::ChatWindow => self.on_key_chat(key),
            screen::View::ContactBrowser => self.on_key_contacts(key),
        }
    }

    /// Takes a pasted text.
    pub fn on_paste(&mut self, text: &str)
        requires
            old(self)@.wf(),
        ensures
            final(self)@ == (match old(self)@.chat {
                Some(c) => AppView { chat: Some(pasted(c, text@)), ..old(self)@ },
                None => old(self)@,
            }),
            final(self)@.wf(),
    {
        match &mut self.chat {
            None => {},
            Some(chat) => chat.on_paste(text),
        }
    }
}

impl App {
    fn thread_position(&self, thread: Thread) -> (i: usize)
        ensures
            i <= self.threads@.len() == self@.threads.len(),
            forall|j: int| 0 <= j < i ==> (#[trigger] self@.threads[j]).thread != thread,
            i < self@.threads.len() ==> self@.threads[i as int].thread == thread,
    {
        let n = self.threads.len();
        let mut i: usize = 0;
        while i < n
            invariant
                i <= n == self.threads@.len(),
                forall|j: int| 0 <= j < i ==> (#[trigger] self@.threads[j]).thread != thread,
            decreases n - i,
        {
            if self.threads[i].thread == thread {
                return i;
            }
            i += 1;
        }
        n
    }

    /// Takes what the service sent: the thread of a message shows it, and the
    /// threads are put in order, latest first.
    pub fn on_signal(&mut self, received: &Received)
        ensures
            final(self)@ == (AppView { threads: final(self)@.threads, ..old(self)@ }),
            match threads_after(old(self)@.threads, *received) {
                Some(threads) => is_stable_sort(threads, final(self)@.threads, more_recent()),
                None => final(self)@.threads == old(self)@.threads,
            },
    {
        let update = match received {
            Received::Content(content) => match extract_update(content) {
                Some(u) => u,
                None => {
                    return ;
                },
            },
            _ => {
                return ;
            },
        };
        let ghost before = self@.threads;
        let ghost thread = update.thread;
        let ghost preview = opt_text(update.preview)->0;
        let ghost ts = update.ts;
        let MessageUpdate { thread: t, preview: p, ts: at } = update;
        let i = self.thread_position(t);
        proof {
            lemma_with_update(before, thread, preview, ts, i as int);
        }
        if i < self.threads.len() {
            self.threads[i].last_preview = p;
            if at > self.threads[i].last_ts {
                self.threads[i].last_ts = at;
                self.threads[i].unread = true;
            }
            proof {
                let u = self.threads@[i as int]@;
                assert(self@.threads == before.update(i as int, u));
            }
        } else {
            let name = match t {
                Thread::Contact(sid) => sid.raw_uuid().text(),
                Thread::Group(_) => {
                    return ;
                },
            };
            let e = ThreadEntry { thread: t, name, last_preview: p, last_ts: at, unread: true };
            self.threads.push(e);
            proof {
                assert(self@.threads == before.push(e@));
            }
        }
        let sorted = sort_by_recency(&self.threads);
        self.threads = sorted;
    }
}

// ── Laws ─────────────────────────────────────────────────────────────────────

/// Whether the selected lines of both lists, where there are lines, are there,
/// and the contact browser is not on the separator.
pub open spec fn selections_inside(a: AppView) -> bool {
    &&& a.list_state.selected matches Some(i) ==> a.threads.len() > 0 ==> i < a.threads.len()
    &&& a.contact_list_state.selected matches Some(i) ==> i <= last_line(a)
    &&& has_separator(a) ==> a.contact_list_state.selected != Some(a.contacts_split)
}

/// Whatever key is pressed, the selections stay on lines that are there, and the
/// contact browser never rests on the separator.
pub proof fn law_selections_stay_inside(a: AppView, key: KeyEvent)
    requires
        selections_inside(a),
        a.threads.len() <= usize::MAX,
        a.contacts.len() <= usize::MAX,
    ensures
        selections_inside(key_step(a, key).0),
{
}

/// In the contact browser Down, `j` and PgDn never move the selection up, and Up,
/// `k` and PgUp never down; the selection stays on a line with an entry, and the
/// entries stay as they are. So it is for keys that are pressed while the browser
/// is shown.
pub proof fn law_browser_keys_move_their_way(a: AppView, key: KeyEvent)
    requires
        selections_inside(a),
        a.contact_list_state.selected is Some,
        a.contacts.len() <= usize::MAX,
        key.code == KeyCode::Down || key.code == KeyCode::Char('j') || key.code == KeyCode::PageDown
            || key.code == KeyCode::Up || key.code == KeyCode::Char('k') || key.code
            == KeyCode::PageUp,
    ensures
        ({
            let (b, cmd) = browser_step(a, key);
            let down = key.code == KeyCode::Down || key.code == KeyCode::Char('j') || key.code
                == KeyCode::PageDown;
            &&& cmd is None
            &&& b.contact_list_state.selected is Some
            &&& down ==> browser_line(b) >= browser_line(a)
            &&& !down ==> browser_line(b) <= browser_line(a)
            &&& browser_line(b) <= last_line(b)
            &&& has_separator(b) ==> browser_line(b) != b.contacts_split
            &&& b.contacts == a.contacts
            &&& b.contacts_split == a.contacts_split
            &&& a.view == screen::View::ContactBrowser && key.kind == KeyEventKind::Press
                ==> key_step(a, key) == (b, cmd)
        }),
{
}

/// A line of the contact browser that a step reaches opens an entry: Enter works
/// wherever the selection is.
pub proof fn law_every_browser_line_opens(a: AppView, key: KeyEvent)
    requires
        selections_inside(a),
        a.contacts.len() > 0,
        a.contact_list_state.selected is Some,
        key.code == KeyCode::Enter,
    ensures
        browser_step(a, key).1 is Some,
{
}

/// Only keys that are pressed count, and only in the chat window do keys change
/// the chat.
pub proof fn law_keys_change_their_screen(a: AppView, key: KeyEvent)
    ensures
        key.kind != KeyEventKind::Press ==> key_step(a, key) == (a, None::<CmdView>),
        a.view != screen::View::ChatWindow ==> key_step(a, key).0.chat == a.chat,
        key_step(a, key).0.view == a.view,
        key_step(a, key).0.threads == a.threads,
        key_step(a, key).0.contacts == a.contacts,
{
}

/// After a message the threads are in order, latest first, and its thread shows
/// it.
pub proof fn law_threads_stay_in_order(
    threads: Seq<ThreadView>,
    content: Content,
    after: Seq<ThreadView>,
)
    requires
        content.thread is Some,
        body_of(content).len() > 0,
        threads_after(threads, Received::Content(content)) is Some,
        is_stable_sort(
            threads_after(threads, Received::Content(content))->0,
            after,
            more_recent(),
        ),
    ensures
        forall|i: int, j: int|
            0 <= i < j < after.len() ==> (#[trigger] after[i]).last_ts >= (#[trigger] after[j]).last_ts,
        exists|i: int|
            0 <= i < after.len() && (#[trigger] after[i]).thread == content.thread->0
                && after[i].last_preview == Some(body_of(content)) && after[i].last_ts
                >= content.timestamp,
        after.len() == threads.len() || after.len() == threads.len() + 1,
{
    let new = threads_after(threads, Received::Content(content))->0;
    lemma_stable_sort_keeps(new, after, more_recent());
    assert forall|i: int, j: int| 0 <= i < j < after.len() implies (#[trigger] after[i]).last_ts >= (
    #[trigger] after[j]).last_ts by {
        assert(more_recent()(after[i], after[j]));
    }
    let k = lemma_update_found(threads, content.thread->0, body_of(content), content.timestamp);
    assert(new.contains(new[k]));
    assert(after.contains(new[k]));
    let i = after.index_of(new[k]);
    assert(after[i] == new[k]);
}

/// No thread comes to stand twice: if each is listed once, so it is after a
/// message.
pub proof fn law_threads_stay_distinct(
    threads: Seq<ThreadView>,
    received: Received,
    after: Seq<ThreadView>,
)
    requires
        threads_differ(threads),
        match threads_after(threads, received) {
            Some(new) => is_stable_sort(new, after, more_recent()),
            None => after == threads,
        },
    ensures
        threads_differ(after),
{
    if let Some(new) = threads_after(threads, received) {
        match received {
            Received::Content(content) => {
                lemma_update_differs(
                    threads,
                    content.thread->0,
                    body_of(content),
                    content.timestamp,
                );
            },
            _ => {},
        }
        let perm = choose|perm: Seq<usize>| #[trigger]
            orders(new, perm, more_recent()) && after == picked(new, perm);
        assert forall|i: int, j: int| 0 <= i < j < after.len() implies (
        #[trigger] after[i]).thread != (#[trigger] after[j]).thread by {
            assert(after[i] == new[perm[i] as int]);
            assert(after[j] == new[perm[j] as int]);
            assert(perm[i] != perm[j]);
        }
    }
}

proof fn lemma_update_differs(
    threads: Seq<ThreadView>,
    thread: Thread,
    preview: Seq<char>,
    ts: u64,
)
    requires
        threads_differ(threads),
        with_update(threads, thread, preview, ts) is Some,
    ensures
        threads_differ(with_update(threads, thread, preview, ts)->0),
        forall|i: int|
            0 <= i < with_update(threads, thread, preview, ts)->0.len() ==> (
            #[trigger] with_update(threads, thread, preview, ts)->0[i]).thread == (if i
                < threads.len() {
                threads[i].thread
            } else {
                thread
            }),
    decreases threads.len(),
{
    let new = with_update(threads, thread, preview, ts)->0;
    if threads.len() > 0 && threads[0].thread != thread {
        let rest = threads.drop_first();
        assert forall|i: int, j: int| 0 <= i < j < rest.len() implies (#[trigger] rest[i]).thread
            != (#[trigger] rest[j]).thread by {
            assert(rest[i] == threads[i + 1] && rest[j] == threads[j + 1]);
        }
        lemma_update_differs(rest, thread, preview, ts);
        let later = with_update(rest, thread, preview, ts)->0;
        assert(new == seq![threads[0]] + later);
        assert forall|i: int| 0 <= i < new.len() implies (#[trigger] new[i]).thread == (if i
            < threads.len() {
            threads[i].thread
        } else {
            thread
        }) by {
            if i > 0 {
                assert(new[i] == later[i - 1]);
                if i < threads.len() {
                    assert(rest[i - 1] == threads[i]);
                }
            }
        }
        assert forall|i: int, j: int| 0 <= i < j < new.len() implies (#[trigger] new[i]).thread != (
        #[trigger] new[j]).thread by {
            assert(new[j] == later[j - 1]);
            if i > 0 {
                assert(new[i] == later[i - 1]);
            }
        }
    }
}

proof fn lemma_update_found(
    threads: Seq<ThreadView>,
    thread: Thread,
    preview: Seq<char>,
    ts: u64,
) -> (k: int)
    requires
        with_update(threads, thread, preview, ts) is Some,
    ensures
        ({
            let new = with_update(threads, thread, preview, ts)->0;
            &&& 0 <= k < new.len()
            &&& new[k].thread == thread
            &&& new[k].last_preview == Some(preview)
            &&& new[k].last_ts >= ts
            &&& new.len() == threads.len() || new.len() == threads.len() + 1
        }),
    decreases threads.len(),
{
    if threads.len() == 0 || threads[0].thread == thread {
        0
    } else {
        1 + lemma_update_found(threads.drop_first(), thread, preview, ts)
    }
}

/// What carries no text, such as a receipt, leaves the threads as they are.
pub proof fn law_receipts_do_not_touch_threads(threads: Seq<ThreadView>, content: Content)
    requires
        body_of(content).len() == 0,
    ensures
        threads_after(threads, Received::Content(content)) is None,
{
}

/// What is listed after something was received.
pub open spec fn lists_after(
    threads: Seq<ThreadView>,
    received: Received,
    after: Seq<ThreadView>,
) -> bool {
    match threads_after(threads, received) {
        Some(new) => is_stable_sort(new, after, more_recent()),
        None => after == threads,
    }
}

/// A message with a text to a thread that is listed, be it with a contact or in a
/// group, is shown there: the thread has its text as preview, and if the message is
/// newer than what was known, its time and the unread mark. The other threads stay
/// as they are, and the latest come first.
pub proof fn law_message_reaches_its_thread(
    threads: Seq<ThreadView>,
    content: Content,
    after: Seq<ThreadView>,
    i: int,
)
    requires
        lists_after(threads, Received::Content(content), after),
        0 <= i < threads.len(),
        content.thread == Some(threads[i].thread),
        body_of(content).len() > 0,
        forall|j: int| 0 <= j < i ==> (#[trigger] threads[j]).thread != threads[i].thread,
    ensures
        after.len() == threads.len(),
        after.contains(
            ThreadView {
                thread: threads[i].thread,
                name: threads[i].name,
                last_preview: Some(body_of(content)),
                last_ts: if content.timestamp > threads[i].last_ts {
                    content.timestamp
                } else {
                    threads[i].last_ts
                },
                unread: threads[i].unread || content.timestamp > threads[i].last_ts,
            },
        ),
        forall|j: int| 0 <= j < threads.len() && j != i ==> after.contains(#[trigger] threads[j]),
        forall|x: int, y: int|
            0 <= x < y < after.len() ==> (#[trigger] after[x]).last_ts >= (
            #[trigger] after[y]).last_ts,
{
    lemma_with_update(
        threads,
        threads[i].thread,
        body_of(content),
        content.timestamp,
        i,
    );
    let new = threads_after(threads, Received::Content(content))->0;
    lemma_stable_sort_keeps(new, after, more_recent());
    assert(new.contains(new[i]));
    assert forall|j: int| 0 <= j < threads.len() && j != i implies after.contains(
        #[trigger] threads[j],
    ) by {
        assert(new[j] == threads[j]);
        assert(new.contains(new[j]));
    }
    assert forall|x: int, y: int| 0 <= x < y < after.len() implies (#[trigger] after[x]).last_ts
        >= (#[trigger] after[y]).last_ts by {
        assert(more_recent()(after[x], after[y]));
    }
}

/// A message with a text to a thread that is not listed lists it, unread, if it is
/// with a contact, under the contact's identifier; an unknown group is not listed.
pub proof fn law_new_contact_is_listed(
    threads: Seq<ThreadView>,
    content: Content,
    after: Seq<ThreadView>,
)
    requires
        lists_after(threads, Received::Content(content), after),
        content.thread is Some,
        body_of(content).len() > 0,
        forall|j: int|
            0 <= j < threads.len() ==> (#[trigger] threads[j]).thread != content.thread->0,
    ensures
        content.thread->0 is Group ==> after == threads,
        content.thread->0 matches Thread::Contact(sid) ==> after.len() == threads.len() + 1
            && after.contains(
            ThreadView {
                thread: content.thread->0,
                name: uuid_text(sid.uuid()),
                last_preview: Some(body_of(content)),
                last_ts: content.timestamp,
                unread: true,
            },
        ) && forall|j: int| 0 <= j < threads.len() ==> after.contains(#[trigger] threads[j]),
{
    let n = threads.len() as int;
    lemma_with_update(threads, content.thread->0, body_of(content), content.timestamp, n);
    if content.thread->0 is Contact {
        let new = threads_after(threads, Received::Content(content))->0;
        lemma_stable_sort_keeps(new, after, more_recent());
        assert(new.contains(new[n]));
        assert forall|j: int| 0 <= j < threads.len() implies after.contains(
            #[trigger] threads[j],
        ) by {
            assert(new[j] == threads[j]);
            assert(new.contains(new[j]));
        }
    }
}

/// What is no message, has no text or belongs to no thread leaves the list as it
/// is.
pub proof fn law_only_messages_change_the_list(
    threads: Seq<ThreadView>,
    received: Received,
    after: Seq<ThreadView>,
)
    requires
        lists_after(threads, received, after),
        received matches Received::Content(c) ==> c.thread is None || body_of(c).len() == 0,
    ensures
        after == threads,
{
}

/// Whether a key moves down a list.
pub open spec fn goes_down(key: KeyEvent) -> bool {
    key.code == KeyCode::Down || key.code == KeyCode::Char('j')
}

/// Whether a key moves up a list.
pub open spec fn goes_up(key: KeyEvent) -> bool {
    key.code == KeyCode::Up || key.code == KeyCode::Char('k')
}

/// Whether a key opens what is selected.
pub open spec fn opens(key: KeyEvent) -> bool {
    key.code == KeyCode::Enter || key.code == KeyCode::Right || key.code == KeyCode::Char('l')
}

/// In the chat list a key moves the selection by one line or by ten, and not past
/// the ends; nothing else changes.
pub proof fn law_list_keys_move_the_selection(a: AppView, key: KeyEvent, i: usize)
    requires
        a.view == screen::View::ChatList,
        key.kind == KeyEventKind::Press,
        a.list_state.selected == Some(i),
        i < a.threads.len() <= usize::MAX,
    ensures
        ({
            let (b, cmd) = key_step(a, key);
            let last = a.threads.len() - 1;
            let at = |n: int| Some(n as usize);
            let moves = goes_down(key) || goes_up(key) || key.code == KeyCode::PageDown || key.code
                == KeyCode::PageUp;
            &&& moves ==> cmd is None && b == (AppView {
                list_state: ListState {
                    offset: a.list_state.offset,
                    selected: b.list_state.selected,
                },
                ..a
            })
            &&& goes_down(key) && i < last ==> b.list_state.selected == at(i + 1)
            &&& goes_down(key) && i == last ==> b.list_state.selected == at(last)
            &&& goes_up(key) && i > 0 ==> b.list_state.selected == at(i - 1)
            &&& goes_up(key) && i == 0 ==> b.list_state.selected == at(0)
            &&& key.code == KeyCode::PageDown && i + 10 <= last ==> b.list_state.selected == at(
                i + 10,
            )
            &&& key.code == KeyCode::PageDown && i + 10 > last ==> b.list_state.selected == at(
                last,
            )
            &&& key.code == KeyCode::PageUp && i >= 10 ==> b.list_state.selected == at(i - 10)
            &&& key.code == KeyCode::PageUp && i < 10 ==> b.list_state.selected == at(0)
        }),
{
}

/// Without a selection the first move selects the first thread, if there is one;
/// without threads a move changes nothing.
pub proof fn law_list_keys_begin_at_the_top(a: AppView, key: KeyEvent)
    requires
        a.view == screen::View::ChatList,
        key.kind == KeyEventKind::Press,
        goes_down(key) || goes_up(key) || key.code == KeyCode::PageDown || key.code
            == KeyCode::PageUp,
        a.threads.len() <= usize::MAX,
    ensures
        a.threads.len() == 0 ==> key_step(a, key) == (a, None::<CmdView>),
        a.list_state.selected is None && a.threads.len() > 0 ==> key_step(
            a,
            key,
        ).0.list_state.selected == Some(0usize),
{
}

/// In the chat list a key opens the selected thread or the contact browser, or
/// quits; every other key is passed over.
pub proof fn law_list_keys_open_and_quit(a: AppView, key: KeyEvent)
    requires
        a.view == screen::View::ChatList,
        key.kind == KeyEventKind::Press,
    ensures
        ({
            let quits = key.code == KeyCode::Char('q') || key.code == KeyCode::Char('Q') || (
            key.code == KeyCode::Char('c') && key.control);
            let browses = key.code == KeyCode::Char('n');
            let i = a.list_state.selected->0 as int;
            let there = a.list_state.selected is Some && i < a.threads.len();
            &&& quits ==> key_step(a, key) == (AppView { quit: true, ..a }, None::<CmdView>)
            &&& browses ==> key_step(a, key) == (a, Some(CmdView::OpenContactBrowser))
            &&& opens(key) && there ==> key_step(a, key) == (
                a,
                Some(
                    CmdView::OpenChat { thread: a.threads[i].thread, name: a.threads[i].name },
                ),
            )
            &&& opens(key) && !there ==> key_step(a, key) == (a, None::<CmdView>)
            &&& !quits && !browses && !opens(key) && !goes_down(key) && !goes_up(key) && key.code
                != KeyCode::PageDown && key.code != KeyCode::PageUp ==> key_step(a, key) == (
                a,
                None::<CmdView>,
            )
        }),
{
}

/// In the contact browser a key moves the selection by one line or by ten, past
/// the separator, and not past the ends.
pub proof fn law_browser_keys_move_the_selection(a: AppView, key: KeyEvent, i: usize)
    requires
        a.view == screen::View::ContactBrowser,
        key.kind == KeyEventKind::Press,
        a.contact_list_state.selected == Some(i),
        a.contacts.len() < usize::MAX,
        a.contacts.len() > 0,
        0 < a.contacts_split < a.contacts.len() ==> i <= a.contacts.len() && i != a.contacts_split,
        !(0 < a.contacts_split < a.contacts.len()) ==> i < a.contacts.len(),
    ensures
        ({
            let (b, cmd) = key_step(a, key);
            let parted = 0 < a.contacts_split < a.contacts.len();
            let sep = a.contacts_split as int;
            let last = if parted {
                a.contacts.len() as int
            } else {
                a.contacts.len() - 1
            };
            let line = b.contact_list_state.selected;
            let at = |n: int| Some(n as usize);
            let moves = goes_down(key) || goes_up(key) || key.code == KeyCode::PageDown || key.code
                == KeyCode::PageUp;
            let below = i + 10;
            let above = i - 10;
            &&& moves ==> cmd is None && b == (AppView {
                contact_list_state: ListState {
                    offset: a.contact_list_state.offset,
                    selected: line,
                },
                ..a
            })
            &&& goes_down(key) && i == last ==> line == at(last)
            &&& goes_down(key) && i < last && !(parted && i + 1 == sep) ==> line == at(i + 1)
            &&& goes_down(key) && parted && i + 1 == sep ==> line == at(i + 2)
            &&& goes_up(key) && i == 0 ==> line == at(0)
            &&& goes_up(key) && i > 0 && !(parted && i - 1 == sep) ==> line == at(i - 1)
            &&& goes_up(key) && parted && i - 1 == sep ==> line == at(i - 2)
            &&& key.code == KeyCode::PageDown && below >= last ==> line == at(last)
            &&& key.code == KeyCode::PageDown && below < last && !(parted && below == sep)
                ==> line == at(below)
            &&& key.code == KeyCode::PageDown && below < last && parted && below == sep ==> line
                == at(below + 1)
            &&& key.code == KeyCode::PageUp && above < 0 ==> line == at(0)
            &&& key.code == KeyCode::PageUp && above >= 0 && !(parted && above == sep) ==> line
                == at(above)
            &&& key.code == KeyCode::PageUp && above >= 0 && parted && above == sep ==> line == at(
                above - 1,
            )
        }),
{
}

/// In the contact browser a key opens the contact or the group on the selected
/// line, goes back or quits; every other key is passed over. The separator opens
/// nothing.
pub proof fn law_browser_keys_open_and_go_back(a: AppView, key: KeyEvent)
    requires
        a.view == screen::View::ContactBrowser,
        key.kind == KeyEventKind::Press,
    ensures
        ({
            let back = key.code == KeyCode::Esc || key.code == KeyCode::Left || key.code
                == KeyCode::Char('q') || key.code == KeyCode::Char('Q') || key.code
                == KeyCode::Char('h');
            let quits = key.code == KeyCode::Char('c') && key.control;
            let parted = 0 < a.contacts_split < a.contacts.len();
            let i = a.contact_list_state.selected->0 as int;
            let opened = |e: ThreadView|
                (a, Some(CmdView::OpenChat { thread: e.thread, name: e.name }));
            &&& back ==> key_step(a, key) == (a, Some(CmdView::RefreshThreadList))
            &&& quits ==> key_step(a, key) == (AppView { quit: true, ..a }, None::<CmdView>)
            &&& opens(key) && a.contact_list_state.selected is None ==> key_step(a, key) == (
                a,
                None::<CmdView>,
            )
            &&& opens(key) && a.contact_list_state.selected is Some && i < a.contacts.len() && (
            !parted || i < a.contacts_split) ==> key_step(a, key) == opened(a.contacts[i])
            &&& opens(key) && a.contact_list_state.selected is Some && parted && i
                == a.contacts_split ==> key_step(a, key) == (a, None::<CmdView>)
            &&& opens(key) && a.contact_list_state.selected is Some && parted && a.contacts_split
                < i <= a.contacts.len() ==> key_step(a, key) == opened(a.contacts[i - 1])
            &&& !back && !quits && !opens(key) && !goes_down(key) && !goes_up(key) && key.code
                != KeyCode::PageDown && key.code != KeyCode::PageUp ==> key_step(a, key) == (
                a,
                None::<CmdView>,
            )
        }),
{
}

/// In the chat window the open chat answers the key; when it closes, it is gone.
/// Nothing else in the client changes.
pub proof fn law_chat_answers_its_keys(a: AppView, key: KeyEvent)
    requires
        a.view == screen::View::ChatWindow,
        key.kind == KeyEventKind::Press,
    ensures
        a.chat is None ==> key_step(a, key) == (a, None::<CmdView>),
        a.chat matches Some(c) ==> key_step(a, key) == (
            AppView { chat: chat_step(c, a.own_aci, key).0, ..a },
            chat_step(c, a.own_aci, key).1,
        ),
{
}

} // verus!
