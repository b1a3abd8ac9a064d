//! The lines of the lists, of the input area and of the status bar.

use vstd::prelude::*;

use crate::app::{has_separator, AppView};
use crate::chat::{ChatState, ChatView, Mode};
use crate::cursor::{col_at, cursor_line_col, lemma_line_at, line_at, lines_of};
use crate::ids::Uuid;
use crate::layout::{
    label_of, line_of, line_views, make_line, sender_label, Line, LineView, Span, SpanView, Style,
};
use crate::roster::{entry_views, ThreadEntry, ThreadView};
use crate::text::{
    chars_of, decimal, decimal_of, is_boundary, join, join_of, lemma_boundary_within, pieces, split,
    string_of, string_of_all, text_lines, text_lines_of, texts,
};
use crate::times::{fmt_ts_long, is_long_label};
use crate::wrap::{center, centered, truncate, truncated};

verus! {

// ── Lists ────────────────────────────────────────────────────────────────────

/// A line of the chat list before it is cut: a star if the thread is unread, the
/// name, and the last message on one line if there is one.
pub open spec fn full_thread_line(t: ThreadView) -> Seq<char> {
    let prefix = if t.unread {
        "* "@
    } else {
        "  "@
    };
    if t.last_preview is Some && t.last_preview->0.len() > 0 {
        prefix + t.name + ": "@ + join_of(text_lines_of(t.last_preview->0), " "@)
    } else {
        prefix + t.name
    }
}

/// A line of the chat list.
pub fn thread_line(t: &ThreadEntry, width: usize) -> (r: String)
    ensures
        r@ == truncated(full_thread_line(t@), width as nat),
{
    let prefix = if t.unread {
        "* "
    } else {
        "  "
    };
    let mut text = prefix.to_owned().concat(t.name.as_str());
    if let Some(p) = &t.last_preview {
        if !p.as_str().is_empty() {
            let collapsed = join(&text_lines(p.as_str()), " ");
            text = text.concat(": ").concat(collapsed.as_str());
        }
    }
    truncate(text.as_str(), width)
}

/// The lines of the chat list.
pub open spec fn thread_lines_of(threads: Seq<ThreadView>, width: nat) -> Seq<Seq<char>> {
    if threads.len() == 0 {
        seq!["(no chats)"@]
    } else {
        threads.map_values(|t: ThreadView| truncated(full_thread_line(t), width))
    }
}

/// The lines of the chat list.
pub fn thread_list(threads: &Vec<ThreadEntry>, width: usize) -> (r: Vec<String>)
    ensures
        texts(r@) == thread_lines_of(entry_views(threads@), width as nat),
{
    let n = threads.len();
    let mut out: Vec<String> = Vec::new();
    if n == 0 {
        out.push("(no chats)".to_owned());
        proof {
            assert(texts(out@) == seq!["(no chats)"@]);
        }
        return out;
    }
    let mut i: usize = 0;
    while i < n
        invariant
            i <= n == threads@.len(),
            out@.len() == i,
            forall|j: int|
                0 <= j < i ==> (#[trigger] out@[j])@ == truncated(
                    full_thread_line(threads@[j]@),
                    width as nat,
                ),
        decreases n - i,
    {
        out.push(thread_line(&threads[i], width));
        i += 1;
    }
    proof {
        assert(texts(out@) == thread_lines_of(entry_views(threads@), width as nat));
    }
    out
}

/// A line of the contact browser.
pub struct ContactLine {
    pub text: String,
    pub separator: bool,
}

/// The contents of a line of the contact browser.
pub struct ContactLineView {
    pub text: Seq<char>,
    pub separator: bool,
}

impl View for ContactLine {
    type V = ContactLineView;

    open spec fn view(&self) -> ContactLineView {
        ContactLineView { text: self.text@, separator: self.separator }
    }
}

/// The contents of the lines of the contact browser.
pub open spec fn contact_line_views(s: Seq<ContactLine>) -> Seq<ContactLineView> {
    s.map_values(|l: ContactLine| l@)
}

/// The separator between the contacts and the groups.
pub open spec fn separator_line(width: nat) -> ContactLineView {
    ContactLineView { text: centered(" groups "@, width, '─'), separator: true }
}

/// The lines of the entries from one place to another.
pub open spec fn name_lines(entries: Seq<ThreadView>, width: nat) -> Seq<ContactLineView> {
    entries.map_values(
        |e: ThreadView| ContactLineView { text: truncated(e.name, width), separator: false },
    )
}

/// The lines of the contact browser: the contacts, a separator if there are both
/// contacts and groups, and the groups.
pub open spec fn browser_lines(entries: Seq<ThreadView>, split: nat, width: nat) -> Seq<
    ContactLineView,
> {
    if 0 < split < entries.len() {
        name_lines(entries.take(split as int), width).push(separator_line(width)) + name_lines(
            entries.skip(split as int),
            width,
        )
    } else {
        name_lines(entries, width)
    }
}

/// The lines of the contact browser; none if there is nothing to show.
pub fn contact_list(entries: &Vec<ThreadEntry>, split: usize, width: usize) -> (r: Vec<ContactLine>)
    ensures
        contact_line_views(r@) == browser_lines(
            entry_views(entries@),
            split as nat,
            width as nat,
        ),
{
    let n = entries.len();
    let has_sep = split > 0 && split < n;
    let ghost e = entry_views(entries@);
    let ghost w = width as nat;
    let ghost all = browser_lines(e, split as nat, w);
    let mut out: Vec<ContactLine> = Vec::new();
    let mut i: usize = 0;
    while i < n
        invariant
            i <= n == entries@.len(),
            has_sep == (0 < split < n),
            e == entry_views(entries@),
            w == width as nat,
            all == browser_lines(e, split as nat, w),
            out@.len() == i + (if has_sep && i > split {
                1int
            } else {
                0
            }),
            forall|j: int| 0 <= j < out@.len() ==> (#[trigger] out@[j])@ == all[j],
        decreases n - i,
    {
        if has_sep && i == split {
            out.push(ContactLine { text: center(" groups ", width, '─'), separator: true });
        }
        out.push(ContactLine { text: truncate(entries[i].name.as_str(), width), separator: false });
        proof {
            let k = out@.len() - 1;
            assert(e[i as int].name == entries@[i as int].name@);
            if has_sep && i >= split {
                assert(e.skip(split as int)[i - split] == e[i as int]);
                assert(all[k] == name_lines(e.skip(split as int), w)[i - split]);
            } else if has_sep {
                assert(e.take(split as int)[i as int] == e[i as int]);
                assert(all[k] == name_lines(e.take(split as int), w)[i as int]);
            }
        }
        i += 1;
    }
    proof {
        assert(contact_line_views(out@) == all);
    }
    out
}

/// Every entry of the contact browser stands on the line that opens it.
pub proof fn law_browser_lines_show_entries(a: AppView, width: nat, i: int)
    requires
        0 <= i < browser_lines(a.contacts, a.contacts_split as nat, width).len(),
    ensures
        ({
            let line = browser_lines(a.contacts, a.contacts_split as nat, width)[i];
            let k = crate::app::entry_on_line(a, i);
            if line.separator {
                k == -1
            } else {
                0 <= k < a.contacts.len() && line.text == truncated(a.contacts[k].name, width)
            }
        }),
{
    let split = a.contacts_split as int;
    if has_separator(a) {
        if i < split {
            assert(a.contacts.take(split)[i] == a.contacts[i]);
        } else if i > split {
            assert(a.contacts.skip(split)[i - split - 1] == a.contacts[i - 1]);
        }
    }
}

// ── The input area ───────────────────────────────────────────────────────────

/// The height of the input area without its border: one line for each line of
/// the input.
pub fn input_rows(input: &str) -> (r: u16)
    ensures
        r == (if lines_of(input@).len() <= 65534 {
            lines_of(input@).len()
        } else {
            65534
        }),
        r >= 1,
{
    let lines = split(&chars_of(input), '\n');
    proof {
        assert(pieces(lines@).len() == lines@.len());
    }
    if lines.len() <= 65534 {
        lines.len() as u16
    } else {
        65534
    }
}

/// What stands before a line of the input.
pub open spec fn prompt_span(i: int) -> SpanView {
    if i == 0 {
        SpanView { text: "> "@, style: Style::Dim }
    } else {
        SpanView { text: "  "@, style: Style::Plain }
    }
}

/// A line of the input with the cursor on it: the character under the cursor, or
/// a space at the end of the line, stands out.
pub open spec fn cursor_line(i: int, line: Seq<char>, col: int) -> LineView {
    let head = seq![
        prompt_span(i),
        SpanView { text: line.take(col), style: Style::Plain },
        SpanView {
            text: if col < line.len() {
                seq![line[col]]
            } else {
                " "@
            },
            style: Style::Cursor,
        },
    ];
    LineView {
        spans: if col + 1 < line.len() {
            head.push(SpanView { text: line.skip(col + 1), style: Style::Plain })
        } else {
            head
        },
        highlighted: false,
    }
}

/// A line of the input without the cursor.
pub open spec fn plain_line(i: int, line: Seq<char>) -> LineView {
    LineView {
        spans: seq![prompt_span(i), SpanView { text: line, style: Style::Plain }],
        highlighted: false,
    }
}

/// The lines of the input with the cursor.
pub open spec fn input_lines_of(input: Seq<char>, cursor: int) -> Seq<LineView> {
    Seq::new(
        lines_of(input).len(),
        |i: int|
            if i == line_at(input, cursor) {
                cursor_line(i, lines_of(input)[i], col_at(input, cursor))
            } else {
                plain_line(i, lines_of(input)[i])
            },
    )
}

/// The lines of the input area: the mode, or the input with its cursor.
pub open spec fn input_area_of(c: ChatView) -> Seq<LineView> {
    if c.mode is Normal {
        seq![line_of("  -- NORMAL --"@, Style::Plain, false)]
    } else {
        input_lines_of(c.input, c.cursor as int)
    }
}

fn prompt(i: usize) -> (r: Span)
    ensures
        r@ == prompt_span(i as int),
{
    if i == 0 {
        Span { text: "> ".to_owned(), style: Style::Dim }
    } else {
        Span { text: "  ".to_owned(), style: Style::Plain }
    }
}

fn make_cursor_line(i: usize, line: &Vec<char>, col: usize) -> (r: Line)
    requires
        col <= line@.len(),
    ensures
        r@ == cursor_line(i as int, line@, col as int),
{
    let n = line.len();
    let mut spans: Vec<Span> = Vec::new();
    spans.push(prompt(i));
    spans.push(Span { text: string_of(line, 0, col), style: Style::Plain });
    let under = if col < n {
        string_of(line, col, col + 1)
    } else {
        " ".to_owned()
    };
    proof {
        assert(line@.subrange(0, col as int) == line@.take(col as int));
        if col < n {
            assert(under@ == seq![line@[col as int]]);
        }
    }
    spans.push(Span { text: under, style: Style::Cursor });
    if col < n && col + 1 < n {
        spans.push(Span { text: string_of(line, col + 1, n), style: Style::Plain });
        proof {
            assert(line@.subrange(col + 1, n as int) == line@.skip(col + 1));
        }
    }
    let r = Line { spans, highlighted: false };
    proof {
        assert(r@.spans == cursor_line(i as int, line@, col as int).spans);
    }
    r
}

fn make_plain_line(i: usize, line: &Vec<char>) -> (r: Line)
    ensures
        r@ == plain_line(i as int, line@),
{
    let mut spans: Vec<Span> = Vec::new();
    spans.push(prompt(i));
    spans.push(Span { text: string_of_all(line), style: Style::Plain });
    let r = Line { spans, highlighted: false };
    proof {
        assert(r@.spans == plain_line(i as int, line@).spans);
    }
    r
}

fn input_lines(input: &str, cursor: usize) -> (r: Vec<Line>)
    requires
        is_boundary(input@, cursor as int),
    ensures
        line_views(r@) == input_lines_of(input@, cursor as int),
{
    let lines = split(&chars_of(input), '\n');
    let (line, col) = cursor_line_col(input, cursor);
    let n = lines.len();
    let ghost p = pieces(lines@);
    proof {
        assert(p == lines_of(input@));
        lemma_boundary_within(input@, cursor as int);
        lemma_line_at(input@, cursor as int);
    }
    let mut out: Vec<Line> = Vec::new();
    let mut i: usize = 0;
    while i < n
        invariant
            i <= n == lines@.len(),
            p == pieces(lines@),
            p == lines_of(input@),
            line == line_at(input@, cursor as int),
            col == col_at(input@, cursor as int),
            0 <= line < n,
            col <= p[line as int].len(),
            out@.len() == i,
            forall|j: int|
                0 <= j < i ==> (#[trigger] out@[j])@ == input_lines_of(input@, cursor as int)[j],
        decreases n - i,
    {
        proof {
            assert(p[i as int] == lines@[i as int]@);
        }
        if i == line {
            out.push(make_cursor_line(i, &lines[i], col));
        } else {
            out.push(make_plain_line(i, &lines[i]));
        }
        i += 1;
    }
    proof {
        assert(line_views(out@) == input_lines_of(input@, cursor as int));
    }
    out
}

/// The lines of the input area: the mode, or the input with its cursor.
pub fn draw_input(chat: &ChatState) -> (r: Vec<Line>)
    requires
        chat@.wf(),
    ensures
        line_views(r@) == input_area_of(chat@),
{
    match &chat.mode {
        Mode::Normal => {
            let mut out: Vec<Line> = Vec::new();
            out.push(make_line("  -- NORMAL --".to_owned(), Style::Plain, false));
            proof {
                assert(line_views(out@) == input_area_of(chat@));
            }
            out
        },
        _ => input_lines(chat.input.as_str(), chat.cursor),
    }
}

// ── Headers and the status bar ───────────────────────────────────────────────

/// The header of the chat window.
pub fn chat_header(thread_name: &str) -> (r: String)
    ensures
        r@ == " "@ + thread_name@,
{
    " ".to_owned().concat(thread_name)
}

/// The status bar of the chat window, given the date and time of the selected
/// message: the hint if there is one; the position, the sender and the time of
/// the selected message; else the keys.
pub open spec fn status_of(c: ChatView, own_aci: Option<Uuid>, at: Seq<char>) -> Seq<char> {
    if c.hint is Some {
        "  Tab:  "@ + c.hint->0
    } else if c.selected_message is Some && c.selected_message->0 < c.messages.len() {
        let i = c.selected_message->0 as int;
        "  ["@ + decimal_of((i + 1) as nat) + "/"@ + decimal_of(c.messages.len()) + "]  "@
            + label_of(c, own_aci, c.messages[i].sender) + "  ·  "@ + at
            + "  |  r reply   e edit   d delete   : command   Esc deselect   q back"@
    } else {
        "  j/k navigate   r reply   e edit   d delete   : command   q/← back"@
    }
}

/// The status bar of the chat window, given the date and time of the selected
/// message.
pub fn status_with_time(chat: &ChatState, own_aci: Option<Uuid>, at: &str) -> (r: String)
    ensures
        r@ == status_of(chat@, own_aci, at@),
{
    if let Some(hint) = &chat.autocomplete_hint {
        return "  Tab:  ".to_owned().concat(hint.as_str());
    }
    if let Some(i) = chat.selected_message {
        let n = chat.messages.len();
        if i < n {
            let sender = sender_label(chat, own_aci, chat.messages[i].sender);
            return "  [".to_owned().concat(decimal((i + 1) as u64).as_str()).concat("/").concat(
                decimal(n as u64).as_str(),
            ).concat("]  ").concat(sender.as_str()).concat("  ·  ").concat(at).concat(
                "  |  r reply   e edit   d delete   : command   Esc deselect   q back",
            );
        }
    }
    "  j/k navigate   r reply   e edit   d delete   : command   q/← back".to_owned()
}

/// The status bar of the chat window, with the time in the time zone of the
/// machine.
pub fn chat_status_bar(chat: &ChatState, own_aci: Option<Uuid>) -> (r: String)
    ensures
        exists|at: Seq<char>|
            {
                &&& r@ == #[trigger] status_of(chat@, own_aci, at)
                &&& chat@.selected_message matches Some(i) ==> i < chat@.messages.len()
                    ==> is_long_label(chat@.messages[i as int].timestamp, at)
            },
{
    let at = match chat.selected_message {
        Some(i) => if i < chat.messages.len() {
            fmt_ts_long(chat.messages[i].timestamp)
        } else {
            String::new()
        },
        None => String::new(),
    };
    let r = status_with_time(chat, own_aci, at.as_str());
    proof {
        assert(r@ == status_of(chat@, own_aci, at@));
    }
    r
}

// ── Laws ─────────────────────────────────────────────────────────────────────

/// A line of the chat list begins with a star if the thread is unread, then names it,
/// and shows the last message, its lines joined by spaces, behind a colon.
pub proof fn law_chat_list_shows_threads(t: ThreadView)
    ensures
        ({
            let mark = if t.unread {
                "* "@
            } else {
                "  "@
            };
            &&& t.last_preview matches Some(p) ==> p.len() > 0 ==> full_thread_line(t) == mark
                + t.name + ": "@ + join_of(text_lines_of(p), " "@)
            &&& t.last_preview is None || t.last_preview->0.len() == 0 ==> full_thread_line(t)
                == mark + t.name
        }),
{
}

/// The chat list has a line for each thread, in their order, cut to the width; without
/// threads it says so.
pub proof fn law_chat_list_has_a_line_for_each(threads: Seq<ThreadView>, width: nat, i: int)
    ensures
        threads.len() == 0 ==> thread_lines_of(threads, width) == seq!["(no chats)"@],
        threads.len() > 0 ==> thread_lines_of(threads, width).len() == threads.len(),
        0 <= i < threads.len() ==> thread_lines_of(threads, width)[i] == truncated(
            full_thread_line(threads[i]),
            width,
        ),
{
}

/// The contact browser shows each entry on a line of its own: the contacts, a separator
/// if there are both, and the groups.
pub proof fn law_browser_shows_every_entry(
    entries: Seq<ThreadView>,
    split: nat,
    width: nat,
    k: int,
)
    requires
        0 <= k < entries.len(),
    ensures
        ({
            let lines = browser_lines(entries, split, width);
            let parted = 0 < split < entries.len();
            let line = ContactLineView {
                text: truncated(entries[k].name, width),
                separator: false,
            };
            &&& parted ==> lines.len() == entries.len() + 1
            &&& !parted ==> lines.len() == entries.len()
            &&& !parted || k < split ==> lines[k] == line
            &&& parted && k >= split ==> lines[k + 1] == line
            &&& parted ==> lines[split as int] == (ContactLineView {
                text: centered(" groups "@, width, '─'),
                separator: true,
            })
        }),
{
}

/// The text of the pieces of a line, one behind the other.
pub open spec fn whole_text(spans: Seq<SpanView>) -> Seq<char>
    decreases spans.len(),
{
    if spans.len() == 0 {
        Seq::empty()
    } else {
        whole_text(spans.drop_last()) + spans.last().text
    }
}

/// The input is drawn line by line behind a prompt. On the line of the cursor, and on
/// no other, the character in the column of the cursor is set off; behind the end of
/// the line a space is.
pub proof fn law_input_is_drawn_whole(input: Seq<char>, cursor: int, i: int)
    requires
        is_boundary(input, cursor),
        0 <= i < lines_of(input).len(),
    ensures
        ({
            let drawn = input_lines_of(input, cursor);
            let line = lines_of(input)[i];
            let col = col_at(input, cursor);
            let here = i == line_at(input, cursor);
            let prompt = if i == 0 {
                "> "@
            } else {
                "  "@
            };
            &&& drawn.len() == lines_of(input).len()
            &&& !here || col < line.len() ==> whole_text(drawn[i].spans) == prompt + line
            &&& here && col == line.len() ==> whole_text(drawn[i].spans) == prompt + line + " "@
            &&& here ==> drawn[i].spans[2].style == Style::Cursor
            &&& here && col < line.len() ==> drawn[i].spans[2].text == seq![line[col]]
            &&& here ==> drawn[i].spans[1].text == line.take(col)
            &&& !here ==> forall|j: int|
                0 <= j < drawn[i].spans.len() ==> (#[trigger] drawn[i].spans[j]).style
                    != Style::Cursor
            &&& !drawn[i].highlighted
        }),
{
    reveal_with_fuel(whole_text, 5);
    lemma_line_at(input, cursor);
    let spans = input_lines_of(input, cursor)[i].spans;
    let line = lines_of(input)[i];
    let col = col_at(input, cursor);
    let p = prompt_span(i).text;
    let none = Seq::<char>::empty();
    assert(none + p == p);
    if i == line_at(input, cursor) {
        let head = seq![spans[0], spans[1], spans[2]];
        if col + 1 < line.len() {
            assert(spans.drop_last() == head);
            assert(head.drop_last() == seq![spans[0], spans[1]]);
            assert(head.drop_last().drop_last() == seq![spans[0]]);
            assert(seq![spans[0]].drop_last() == Seq::<SpanView>::empty());
            assert(p + line.take(col) + seq![line[col]] + line.skip(col + 1) == p + line);
        } else {
            assert(spans == head);
            assert(spans.drop_last() == seq![spans[0], spans[1]]);
            assert(spans.drop_last().drop_last() == seq![spans[0]]);
            assert(seq![spans[0]].drop_last() == Seq::<SpanView>::empty());
            if col < line.len() {
                assert(p + line.take(col) + seq![line[col]] == p + line);
            } else {
                assert(line.take(col) == line);
            }
        }
    } else {
        assert(spans.drop_last() == seq![spans[0]]);
        assert(seq![spans[0]].drop_last() == Seq::<SpanView>::empty());
    }
}

/// In Normal mode the input area says so; else it shows the input.
pub proof fn law_input_area_shows_mode_or_input(c: ChatView)
    ensures
        c.mode is Normal ==> input_area_of(c) == seq![
            line_of("  -- NORMAL --"@, Style::Plain, false),
        ],
        !(c.mode is Normal) ==> input_area_of(c) == input_lines_of(c.input, c.cursor as int),
{
}

/// The status bar shows the hint if there is one; else the place, the sender and the
/// time of the selected message with what can be done; else what keys there are.
pub proof fn law_status_bar_shows_what_matters(
    c: ChatView,
    own_aci: Option<Uuid>,
    at: Seq<char>,
)
    ensures
        c.hint matches Some(h) ==> status_of(c, own_aci, at) == "  Tab:  "@ + h,
        c.hint is None ==> (c.selected_message matches Some(i) ==> i < c.messages.len()
            ==> status_of(c, own_aci, at) == "  ["@ + decimal_of((i + 1) as nat) + "/"@
            + decimal_of(c.messages.len()) + "]  "@ + label_of(
            c,
            own_aci,
            c.messages[i as int].sender,
        ) + "  ·  "@ + at
            + "  |  r reply   e edit   d delete   : command   Esc deselect   q back"@),
        c.hint is None && (c.selected_message is None || c.selected_message->0
            >= c.messages.len()) ==> status_of(c, own_aci, at)
            == "  j/k navigate   r reply   e edit   d delete   : command   q/← back"@,
{
}

} // verus!
