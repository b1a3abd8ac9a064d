//! The lines of the message area: sender blocks, quotes, texts, receipts and
//! reactions, and which of them are in view.

use std::collections::HashSet;

use vstd::prelude::*;

use crate::chat::{is_own, is_own_message, ChatState, ChatView};
use crate::content::{body_of, message_body, message_quote, quote_of, Content};
use crate::ids::{uuid_text, Thread, Uuid};
use crate::reactions::{format_reactions, pair_texts};
use crate::roster::name_in;
use crate::text::{
    chars_of, join_of, pieces, split, split_on, string_of_all, texts, words_of,
};
use crate::times::{fmt_ts_long, fmt_ts_short, is_long_label, is_short_label};
use crate::wrap::{
    all_lines, center, centered, law_line_feeds_part_lines, law_wrapped_text_keeps_words,
    paragraph_lines, word_wrap, wrap_of,
};

verus! {

broadcast use vstd::std_specs::hash::group_hash_axioms;

// ── Lines ────────────────────────────────────────────────────────────────────

/// How a piece of a line looks.
#[derive(Clone, Copy, Debug, PartialEq, Eq, Structural)]
pub enum Style {
    Plain,
    /// Separators, times, quotes and reactions.
    Dim,
    /// The name above our messages.
    Own,
    /// The name above the messages of others.
    Other,
    /// The character under the cursor.
    Cursor,
}

/// A piece of a line.
pub struct Span {
    pub text: String,
    pub style: Style,
}

/// A line; that of a selected message is highlighted.
pub struct Line {
    pub spans: Vec<Span>,
    pub highlighted: bool,
}

/// The contents of a piece of a line.
pub struct SpanView {
    pub text: Seq<char>,
    pub style: Style,
}

/// The contents of a line.
pub struct LineView {
    pub spans: Seq<SpanView>,
    pub highlighted: bool,
}

impl View for Span {
    type V = SpanView;

    open spec fn view(&self) -> SpanView {
        SpanView { text: self.text@, style: self.style }
    }
}

/// The contents of the pieces of a line.
pub open spec fn span_views(s: Seq<Span>) -> Seq<SpanView> {
    s.map_values(|p: Span| p@)
}

impl View for Line {
    type V = LineView;

    open spec fn view(&self) -> LineView {
        LineView { spans: span_views(self.spans@), highlighted: self.highlighted }
    }
}

/// The contents of lines.
pub open spec fn line_views(s: Seq<Line>) -> Seq<LineView> {
    s.map_values(|l: Line| l@)
}

/// A line of one piece.
pub open spec fn line_of(text: Seq<char>, style: Style, highlighted: bool) -> LineView {
    LineView { spans: seq![SpanView { text, style }], highlighted }
}

/// A line of one piece.
pub fn make_line(text: String, style: Style, highlighted: bool) -> (r: Line)
    ensures
        r@ == line_of(text@, style, highlighted),
{
    let mut spans: Vec<Span> = Vec::new();
    spans.push(Span { text, style });
    let r = Line { spans, highlighted };
    proof {
        assert(r@.spans == line_of(text@, style, highlighted).spans);
    }
    r
}

fn push_line(out: &mut Vec<Line>, line: Line)
    ensures
        line_views(final(out)@) == line_views(old(out)@).push(line@),
{
    out.push(line);
    proof {
        assert(line_views(out@) == line_views(old(out)@).push(line@));
    }
}

// ── What the lines are made of ───────────────────────────────────────────────

/// The name of a sender: "You" for this account, in a group the name in the
/// roster or the identifier, else the name of the thread.
pub open spec fn label_of(c: ChatView, own_aci: Option<Uuid>, sender: Uuid) -> Seq<char> {
    if own_aci == Some(sender) {
        "You"@
    } else if c.thread is Group {
        match name_in(c.sender_names, sender) {
            Some(name) => name,
            None => uuid_text(sender),
        }
    } else {
        c.thread_name
    }
}

/// The name of a sender.
pub fn sender_label(chat: &ChatState, own_aci: Option<Uuid>, sender: Uuid) -> (r: String)
    ensures
        r@ == label_of(chat@, own_aci, sender),
{
    if own_aci == Some(sender) {
        return "You".to_owned();
    }
    match chat.thread {
        Thread::Group(_) => match chat.sender_names.get(sender) {
            Some(name) => name,
            None => sender.text(),
        },
        Thread::Contact(_) => chat.thread_name.clone(),
    }
}

/// The mark behind a message of ours: read, delivered, or neither.
pub open spec fn receipt_of(read: Set<u64>, delivered: Set<u64>, ts: u64) -> Seq<char> {
    if read.contains(ts) {
        "  ✓✓"@
    } else if delivered.contains(ts) {
        "  ✓"@
    } else {
        ""@
    }
}

/// The mark behind a message of ours.
pub fn receipt_indicator(read: &HashSet<u64>, delivered: &HashSet<u64>, ts: u64) -> (r: &'static str)
    ensures
        r@ == receipt_of(read@, delivered@, ts),
{
    if read.contains(&ts) {
        "  ✓✓"
    } else if delivered.contains(&ts) {
        "  ✓"
    } else {
        ""
    }
}

/// Whether more than an hour lies between a message and the one before it.
pub open spec fn has_gap(messages: Seq<Content>, i: int) -> bool {
    i > 0 && messages[i].timestamp - messages[i - 1].timestamp > 3_600_000
}

/// Whether a message begins a sender block: the first one, the first after a
/// gap, and one from another sender than the one before it. In a chat with a
/// contact there are two senders, this account and the contact.
pub open spec fn begins_block(c: ChatView, own_aci: Option<Uuid>, i: int) -> bool {
    let m = c.messages[i];
    let p = c.messages[i - 1];
    i == 0 || has_gap(c.messages, i) || is_own(m, own_aci) != is_own(p, own_aci) || (
    c.thread is Group && m.sender != p.sender)
}

/// The time labels of a message: the time of day, and the date and time.
pub struct Times {
    pub short: String,
    pub long: String,
}

/// The contents of time labels.
pub struct TimesView {
    pub short: Seq<char>,
    pub long: Seq<char>,
}

impl View for Times {
    type V = TimesView;

    open spec fn view(&self) -> TimesView {
        TimesView { short: self.short@, long: self.long@ }
    }
}

/// The lines before a message that follows after more than an hour.
pub open spec fn gap_lines(at: TimesView, width: nat) -> Seq<LineView> {
    seq![
        line_of(""@, Style::Plain, false),
        line_of(centered("── "@ + at.long + " ──"@, width, ' '), Style::Dim, false),
        line_of(""@, Style::Plain, false),
    ]
}

/// The line with the name of the sender and the time of day.
pub open spec fn header_line(
    label: Seq<char>,
    own: bool,
    at: TimesView,
    selected: bool,
) -> LineView {
    LineView {
        spans: seq![
            SpanView {
                text: label,
                style: if own {
                    Style::Own
                } else {
                    Style::Other
                },
            },
            SpanView { text: "  "@ + at.short, style: Style::Dim },
        ],
        highlighted: selected,
    }
}

/// The lines above the text of a message: the separator and the header.
pub open spec fn head_lines(
    c: ChatView,
    own_aci: Option<Uuid>,
    i: int,
    at: TimesView,
    width: nat,
) -> Seq<LineView> {
    let m = c.messages[i];
    let gap = has_gap(c.messages, i);
    let before = if gap {
        gap_lines(at, width)
    } else if i > 0 && begins_block(c, own_aci, i) {
        seq![line_of(""@, Style::Plain, false)]
    } else {
        Seq::empty()
    };
    if begins_block(c, own_aci, i) {
        before.push(
            header_line(
                label_of(c, own_aci, m.sender),
                is_own(m, own_aci),
                at,
                c.selected_message == Some(i as usize),
            ),
        )
    } else {
        before
    }
}

/// The lines of the quote in a message: the author, and the first line of the
/// quoted text or an ellipsis.
pub open spec fn quote_lines(c: ChatView, own_aci: Option<Uuid>, i: int) -> Seq<LineView> {
    let selected = c.selected_message == Some(i as usize);
    match quote_of(c.messages[i]) {
        None => Seq::empty(),
        Some((author, first)) => seq![
            line_of("  > "@ + label_of(c, own_aci, author) + ":"@, Style::Dim, selected),
            line_of(
                "  > "@ + (if first.len() > 0 {
                    first
                } else {
                    "…"@
                }),
                Style::Dim,
                selected,
            ),
        ],
    }
}

/// Lines, each put on as many lines as it needs.
pub open spec fn rewrapped(lines: Seq<Seq<char>>, width: nat) -> Seq<Seq<char>>
    decreases lines.len(),
{
    if lines.len() == 0 {
        Seq::empty()
    } else {
        rewrapped(lines.drop_last(), width) + wrap_of(lines.last(), width)
    }
}

/// The width that is left for the text of a message beside its indentation.
pub open spec fn text_width(width: nat) -> nat {
    if width >= 2 {
        (width - 2) as nat
    } else {
        0
    }
}

/// The lines of the text of a message, indented; the mark stands behind the last.
pub open spec fn indented(
    lines: Seq<Seq<char>>,
    mark: Seq<char>,
    selected: bool,
) -> Seq<LineView> {
    Seq::new(
        lines.len(),
        |j: int|
            line_of(
                "  "@ + lines[j] + (if j == lines.len() - 1 {
                    mark
                } else {
                    ""@
                }),
                Style::Plain,
                selected,
            ),
    )
}

/// The lines of the text of a message.
pub open spec fn body_lines(c: ChatView, own_aci: Option<Uuid>, i: int, width: nat) -> Seq<LineView> {
    let m = c.messages[i];
    let mark = if is_own(m, own_aci) {
        receipt_of(c.read, c.delivered, m.timestamp)
    } else {
        ""@
    };
    indented(
        rewrapped(split_on(body_of(m), '\n'), text_width(width)),
        mark,
        c.selected_message == Some(i as usize),
    )
}

/// The line with the reactions to a message, if there are any.
pub open spec fn reaction_lines(c: ChatView, i: int) -> Seq<LineView> {
    let at = c.reactions.at(c.messages[i].timestamp);
    if at.len() == 0 {
        Seq::empty()
    } else {
        seq![
            line_of(
                "  "@ + ("["@ + join_of(pair_texts(at), ", "@) + "]"@),
                Style::Dim,
                c.selected_message == Some(i as usize),
            ),
        ]
    }
}

/// All lines of a message.
pub open spec fn block_of(
    c: ChatView,
    own_aci: Option<Uuid>,
    i: int,
    at: TimesView,
    width: nat,
) -> Seq<LineView> {
    head_lines(c, own_aci, i, at, width) + quote_lines(c, own_aci, i) + body_lines(
        c,
        own_aci,
        i,
        width,
    ) + reaction_lines(c, i)
}

/// All lines of the first `n` messages.
pub open spec fn lines_upto(
    c: ChatView,
    own_aci: Option<Uuid>,
    times: Seq<TimesView>,
    width: nat,
    n: int,
) -> Seq<LineView>
    decreases n,
{
    if n <= 0 {
        Seq::empty()
    } else {
        lines_upto(c, own_aci, times, width, n - 1) + block_of(
            c,
            own_aci,
            n - 1,
            times[n - 1],
            width,
        )
    }
}

// ── Making the lines ─────────────────────────────────────────────────────────

fn push_head(
    out: &mut Vec<Line>,
    chat: &ChatState,
    own_aci: Option<Uuid>,
    i: usize,
    at: &Times,
    width: usize,
)
    requires
        i < chat@.messages.len(),
    ensures
        line_views(final(out)@) == line_views(old(out)@) + head_lines(
            chat@,
            own_aci,
            i as int,
            at@,
            width as nat,
        ),
{
    let m = &chat.messages[i];
    let own = is_own_message(m, own_aci);
    let label = sender_label(chat, own_aci, m.sender);
    let selected = chat.selected_message == Some(i);
    let mut gap = false;
    let mut begins = true;
    if i > 0 {
        let p = &chat.messages[i - 1];
        gap = m.timestamp >= p.timestamp && m.timestamp - p.timestamp > 3_600_000;
        let grouped = match chat.thread {
            Thread::Group(_) => true,
            Thread::Contact(_) => false,
        };
        begins = gap || own != is_own_message(p, own_aci) || (grouped && m.sender != p.sender);
    }
    let ghost start = line_views(out@);
    if gap {
        let sep = "── ".to_owned().concat(at.long.as_str()).concat(" ──");
        push_line(out, make_line("".to_owned(), Style::Plain, false));
        push_line(out, make_line(center(sep.as_str(), width, ' '), Style::Dim, false));
        push_line(out, make_line("".to_owned(), Style::Plain, false));
        proof {
            assert(line_views(out@) == start + gap_lines(at@, width as nat));
        }
    } else if i > 0 && begins {
        push_line(out, make_line("".to_owned(), Style::Plain, false));
        proof {
            assert(line_views(out@) == start + seq![line_of(""@, Style::Plain, false)]);
        }
    } else {
        proof {
            assert(line_views(out@) == start + Seq::<LineView>::empty());
        }
    }
    if begins {
        let style = if own {
            Style::Own
        } else {
            Style::Other
        };
        let ghost before = line_views(out@);
        let mut spans: Vec<Span> = Vec::new();
        spans.push(Span { text: label, style });
        spans.push(Span { text: "  ".to_owned().concat(at.short.as_str()), style: Style::Dim });
        let line = Line { spans, highlighted: selected };
        proof {
            assert(line@.spans == header_line(label@, own, at@, selected).spans);
        }
        push_line(out, line);
        proof {
            assert(line_views(out@) == before.push(header_line(label@, own, at@, selected)));
        }
    }
    proof {
        assert(line_views(out@) == start + head_lines(chat@, own_aci, i as int, at@, width as nat));
    }
}

fn push_quote(out: &mut Vec<Line>, chat: &ChatState, own_aci: Option<Uuid>, i: usize)
    requires
        i < chat@.messages.len(),
    ensures
        line_views(final(out)@) == line_views(old(out)@) + quote_lines(chat@, own_aci, i as int),
{
    let ghost start = line_views(out@);
    let selected = chat.selected_message == Some(i);
    match message_quote(&chat.messages[i]) {
        None => {
            proof {
                assert(start + Seq::<LineView>::empty() == start);
            }
        },
        Some((author, first)) => {
            let label = sender_label(chat, own_aci, author);
            push_line(
                out,
                make_line(
                    "  > ".to_owned().concat(label.as_str()).concat(":"),
                    Style::Dim,
                    selected,
                ),
            );
            let shown = if first.as_str().is_empty() {
                "  > ".to_owned().concat("…")
            } else {
                "  > ".to_owned().concat(first.as_str())
            };
            push_line(out, make_line(shown, Style::Dim, selected));
            proof {
                assert(line_views(out@) == start + quote_lines(chat@, own_aci, i as int));
            }
        },
    }
}

fn wrap_body(body: &str, width: usize) -> (r: Vec<String>)
    ensures
        texts(r@) == rewrapped(split_on(body@, '\n'), width as nat),
{
    let lines = split(&chars_of(body), '\n');
    let n = lines.len();
    let ghost p = pieces(lines@);
    let mut out: Vec<String> = Vec::new();
    let mut i: usize = 0;
    proof {
        assert(texts(out@) == rewrapped(p.take(0), width as nat));
    }
    while i < n
        invariant
            i <= n == lines@.len(),
            p == pieces(lines@),
            texts(out@) == rewrapped(p.take(i as int), width as nat),
        decreases n - i,
    {
        proof {
            assert(p.take(i + 1).drop_last() == p.take(i as int));
            assert(p[i as int] == lines@[i as int]@);
        }
        let mut more = word_wrap(string_of_all(&lines[i]).as_str(), width);
        let ghost before = out@;
        let ghost added = more@;
        out.append(&mut more);
        proof {
            assert(texts(out@) == texts(before) + texts(added));
        }
        i += 1;
    }
    proof {
        assert(p.take(n as int) == p);
    }
    out
}

fn push_body(
    out: &mut Vec<Line>,
    chat: &ChatState,
    own_aci: Option<Uuid>,
    i: usize,
    width: usize,
)
    requires
        i < chat@.messages.len(),
    ensures
        line_views(final(out)@) == line_views(old(out)@) + body_lines(
            chat@,
            own_aci,
            i as int,
            width as nat,
        ),
{
    let m = &chat.messages[i];
    let selected = chat.selected_message == Some(i);
    let mark = if is_own_message(m, own_aci) {
        receipt_indicator(&chat.read, &chat.delivered, m.timestamp)
    } else {
        ""
    };
    let inner = if width >= 2 {
        width - 2
    } else {
        0
    };
    let lines = wrap_body(message_body(m).as_str(), inner);
    let n = lines.len();
    let ghost l = texts(lines@);
    let ghost all = indented(l, mark@, selected);
    let ghost start = line_views(out@);
    let mut j: usize = 0;
    proof {
        assert(start + all.take(0) == start);
    }
    while j < n
        invariant
            j <= n == lines@.len(),
            l == texts(lines@),
            all == indented(l, mark@, selected),
            line_views(out@) == start + all.take(j as int),
        decreases n - j,
    {
        let end = if j == n - 1 {
            mark
        } else {
            ""
        };
        let text = "  ".to_owned().concat(lines[j].as_str()).concat(end);
        proof {
            assert(l[j as int] == lines@[j as int]@);
            assert((start + all.take(j as int)).push(all[j as int]) == start + all.take(j + 1));
        }
        push_line(out, make_line(text, Style::Plain, selected));
        j += 1;
    }
    proof {
        assert(all.take(n as int) == all);
    }
}

fn push_reactions(out: &mut Vec<Line>, chat: &ChatState, i: usize)
    requires
        chat@.wf(),
        i < chat@.messages.len(),
    ensures
        line_views(final(out)@) == line_views(old(out)@) + reaction_lines(chat@, i as int),
{
    let ghost start = line_views(out@);
    let selected = chat.selected_message == Some(i);
    match format_reactions(chat.reactions.get(chat.messages[i].timestamp)) {
        Some(text) => {
            push_line(
                out,
                make_line("  ".to_owned().concat(text.as_str()), Style::Dim, selected),
            );
            proof {
                assert(line_views(out@) == start + reaction_lines(chat@, i as int));
            }
        },
        None => {
            proof {
                assert(start + Seq::<LineView>::empty() == start);
            }
        },
    }
}

/// The lines of the message area, and the first and the last line of each
/// message.
pub struct Layout {
    pub lines: Vec<Line>,
    pub starts: Vec<usize>,
    pub ends: Vec<usize>,
}

/// The contents of lists of time labels.
pub open spec fn times_views(s: Seq<Times>) -> Seq<TimesView> {
    s.map_values(|t: Times| t@)
}

/// The number of lines of the first `n` messages.
pub open spec fn lines_before(
    c: ChatView,
    own_aci: Option<Uuid>,
    times: Seq<TimesView>,
    width: nat,
    n: int,
) -> int {
    lines_upto(c, own_aci, times, width, n).len() as int
}

impl Layout {
    /// Whether these are the lines of a chat.
    pub open spec fn is_of(
        self,
        c: ChatView,
        own_aci: Option<Uuid>,
        times: Seq<TimesView>,
        width: nat,
    ) -> bool {
        let n = c.messages.len() as int;
        &&& line_views(self.lines@) == lines_upto(c, own_aci, times, width, n)
        &&& self.starts@.len() == n
        &&& self.ends@.len() == n
        &&& forall|i: int|
            0 <= i < n ==> (#[trigger] self.starts@[i]) == lines_before(
                c,
                own_aci,
                times,
                width,
                i,
            )
        &&& forall|i: int|
            0 <= i < n ==> (#[trigger] self.ends@[i]) == lines_before(
                c,
                own_aci,
                times,
                width,
                i + 1,
            ) - 1
    }
}

/// Every message has a line.
pub proof fn lemma_block_nonempty(
    c: ChatView,
    own_aci: Option<Uuid>,
    i: int,
    at: TimesView,
    width: nat,
)
    ensures
        body_lines(c, own_aci, i, width).len() >= 1,
        block_of(c, own_aci, i, at, width).len() >= 1,
{
    crate::text::lemma_split_nonempty(body_of(c.messages[i]), '\n');
    lemma_rewrapped_nonempty(split_on(body_of(c.messages[i]), '\n'), text_width(width));
}

proof fn lemma_rewrapped_nonempty(lines: Seq<Seq<char>>, width: nat)
    requires
        lines.len() >= 1,
    ensures
        rewrapped(lines, width).len() >= 1,
{
    crate::wrap::lemma_wrap_nonempty(lines.last(), width);
}

/// The lines of the message area, given the time labels of the messages.
pub fn layout_messages(
    chat: &ChatState,
    own_aci: Option<Uuid>,
    times: &Vec<Times>,
    width: usize,
) -> (r: Layout)
    requires
        chat@.wf(),
        times@.len() == chat@.messages.len(),
    ensures
        r.is_of(chat@, own_aci, times_views(times@), width as nat),
{
    let n = chat.messages.len();
    let ghost c = chat@;
    let ghost t = times_views(times@);
    let ghost w = width as nat;
    let mut lines: Vec<Line> = Vec::new();
    let mut starts: Vec<usize> = Vec::new();
    let mut ends: Vec<usize> = Vec::new();
    let mut i: usize = 0;
    proof {
        assert(line_views(lines@) == lines_upto(c, own_aci, t, w, 0));
    }
    while i < n
        invariant
            i <= n == chat@.messages.len() == times@.len(),
            chat@.wf(),
            c == chat@,
            t == times_views(times@),
            w == width as nat,
            line_views(lines@) == lines_upto(c, own_aci, t, w, i as int),
            starts@.len() == i,
            ends@.len() == i,
            forall|j: int|
                0 <= j < i ==> (#[trigger] starts@[j]) == lines_before(c, own_aci, t, w, j),
            forall|j: int|
                0 <= j < i ==> (#[trigger] ends@[j]) == lines_before(c, own_aci, t, w, j + 1) - 1,
        decreases n - i,
    {
        let ghost before = line_views(lines@);
        proof {
            assert(before.len() == lines@.len());
        }
        starts.push(lines.len());
        push_head(&mut lines, chat, own_aci, i, &times[i], width);
        push_quote(&mut lines, chat, own_aci, i);
        push_body(&mut lines, chat, own_aci, i, width);
        push_reactions(&mut lines, chat, i);
        proof {
            lemma_block_nonempty(c, own_aci, i as int, t[i as int], w);
            assert(line_views(lines@) == before + block_of(c, own_aci, i as int, t[i as int], w));
            assert(line_views(lines@).len() == lines@.len());
        }
        ends.push(lines.len() - 1);
        i += 1;
    }
    Layout { lines, starts, ends }
}

/// The lines of the message area, with times in the time zone of the machine.
pub fn message_lines(chat: &ChatState, own_aci: Option<Uuid>, width: usize) -> (r: Layout)
    requires
        chat@.wf(),
    ensures
        exists|times: Seq<TimesView>|
            {
                &&& times.len() == chat@.messages.len()
                &&& forall|i: int|
                    0 <= i < times.len() ==> is_short_label(
                        chat@.messages[i].timestamp,
                        (#[trigger] times[i]).short,
                    ) && is_long_label(chat@.messages[i].timestamp, times[i].long)
                &&& #[trigger] r.is_of(chat@, own_aci, times, width as nat)
            },
{
    let n = chat.messages.len();
    let mut times: Vec<Times> = Vec::new();
    let mut i: usize = 0;
    while i < n
        invariant
            i <= n == chat@.messages.len(),
            times@.len() == i,
            forall|j: int|
                0 <= j < i ==> is_short_label(
                    chat@.messages[j].timestamp,
                    (#[trigger] times@[j]).short@,
                ) && is_long_label(chat@.messages[j].timestamp, times@[j].long@),
        decreases n - i,
    {
        let ts = chat.messages[i].timestamp;
        times.push(Times { short: fmt_ts_short(ts), long: fmt_ts_long(ts) });
        i += 1;
    }
    let r = layout_messages(chat, own_aci, &times, width);
    proof {
        let t = times_views(times@);
        assert(t.len() == n);
        assert(r.is_of(chat@, own_aci, t, width as nat));
    }
    r
}

// ── Laws ─────────────────────────────────────────────────────────────────────

/// The messages follow each other: each has at least one line, and the next
/// begins on the line behind its last one.
pub proof fn law_messages_follow_each_other(
    layout: Layout,
    c: ChatView,
    own_aci: Option<Uuid>,
    times: Seq<TimesView>,
    width: nat,
    i: int,
)
    requires
        layout.is_of(c, own_aci, times, width),
        0 <= i < c.messages.len(),
    ensures
        layout.starts@[i] <= layout.ends@[i] < layout.lines@.len(),
        i + 1 < c.messages.len() ==> layout.starts@[i + 1] == layout.ends@[i] + 1,
        i == 0 ==> layout.starts@[i] == 0,
        i + 1 == c.messages.len() ==> layout.ends@[i] == layout.lines@.len() - 1,
{
    lemma_block_nonempty(c, own_aci, i, times[i], width);
    assert(lines_upto(c, own_aci, times, width, i + 1).len() == lines_upto(
        c,
        own_aci,
        times,
        width,
        i,
    ).len() + block_of(c, own_aci, i, times[i], width).len());
    lemma_lines_grow(c, own_aci, times, width, i + 1, c.messages.len() as int);
    assert(line_views(layout.lines@).len() == layout.lines@.len());
}

proof fn lemma_lines_grow(
    c: ChatView,
    own_aci: Option<Uuid>,
    times: Seq<TimesView>,
    width: nat,
    i: int,
    j: int,
)
    requires
        0 <= i <= j,
    ensures
        lines_upto(c, own_aci, times, width, i).len() <= lines_upto(
            c,
            own_aci,
            times,
            width,
            j,
        ).len(),
    decreases j - i,
{
    if i < j {
        lemma_lines_grow(c, own_aci, times, width, i, j - 1);
    }
}

/// A message has a header unless it follows, within an hour, a message of the
/// same sender; so the messages of one sender stand under one header, and those
/// of two senders do not, even if both are shown by the same name.
pub proof fn law_sender_blocks(
    c: ChatView,
    own_aci: Option<Uuid>,
    i: int,
    at: TimesView,
    width: nat,
)
    requires
        0 < i < c.messages.len(),
    ensures
        ({
            let m = c.messages[i];
            let p = c.messages[i - 1];
            let head = head_lines(c, own_aci, i, at, width);
            let header = header_line(
                label_of(c, own_aci, m.sender),
                is_own(m, own_aci),
                at,
                c.selected_message == Some(i as usize),
            );
            let far = m.timestamp > p.timestamp + 3_600_000;
            &&& m.sender == p.sender && !far ==> head == Seq::<LineView>::empty()
            &&& far ==> head.len() > 0 && head.last() == header
            &&& c.thread is Group && m.sender != p.sender ==> head.len() > 0 && head.last()
                == header
            &&& is_own(m, own_aci) != is_own(p, own_aci) ==> head.len() > 0 && head.last()
                == header
            &&& label_of(c, own_aci, m.sender) != label_of(c, own_aci, p.sender) ==> head.len() > 0
                && head.last() == header
        }),
{
}

proof fn lemma_rewrapped_lines(parts: Seq<Seq<char>>, width: nat)
    requires
        forall|i: int| 0 <= i < parts.len() ==> !(#[trigger] parts[i]).contains('\n'),
    ensures
        width > 0 ==> rewrapped(parts, width) == all_lines(parts, width),
        width == 0 ==> rewrapped(parts, width) == parts,
    decreases parts.len(),
{
    if parts.len() > 0 {
        let rest = parts.drop_last();
        let last = parts.last();
        assert forall|i: int| 0 <= i < rest.len() implies !(#[trigger] rest[i]).contains('\n') by {
            assert(rest[i] == parts[i]);
        }
        lemma_rewrapped_lines(rest, width);
        assert(!parts[parts.len() - 1].contains('\n'));
        if width > 0 {
            crate::text::lemma_split_one(last, '\n');
            reveal_with_fuel(all_lines, 2);
            assert(seq![last].drop_last() == Seq::<Seq<char>>::empty());
            assert(wrap_of(last, width) == paragraph_lines(last, width));
        } else {
            assert(rest + seq![last] == parts);
        }
    }
}

/// The mark behind a message: only one of this account has it, two ticks if it was
/// read, one if it was delivered.
pub open spec fn has_mark(c: ChatView, own_aci: Option<Uuid>, m: Content, mark: Seq<char>) -> bool {
    &&& own_aci != Some(m.sender) ==> mark == ""@
    &&& own_aci == Some(m.sender) && c.read.contains(m.timestamp) ==> mark == "  ✓✓"@
    &&& own_aci == Some(m.sender) && !c.read.contains(m.timestamp) && c.delivered.contains(
        m.timestamp,
    ) ==> mark == "  ✓"@
    &&& own_aci == Some(m.sender) && !c.read.contains(m.timestamp) && !c.delivered.contains(
        m.timestamp,
    ) ==> mark == ""@
}

/// The text of a message is drawn whole: its lines, each wrapped to the width that
/// is left beside the indentation, stand one below the other, and hold every word of
/// the text in its order. The mark stands behind the last one. All are highlighted
/// if the message is selected.
pub proof fn law_text_is_drawn_whole(
    c: ChatView,
    own_aci: Option<Uuid>,
    i: int,
    width: nat,
    mark: Seq<char>,
    lines: Seq<Seq<char>>,
)
    requires
        0 <= i < c.messages.len() <= usize::MAX,
        has_mark(c, own_aci, c.messages[i], mark),
        width > 2 ==> lines == wrap_of(body_of(c.messages[i]), (width - 2) as nat),
        width <= 2 ==> lines == split_on(body_of(c.messages[i]), '\n'),
    ensures
        body_lines(c, own_aci, i, width).len() == lines.len() > 0,
        words_of(join_of(lines, "\n"@)) == words_of(body_of(c.messages[i])),
        forall|j: int|
            0 <= j < lines.len() - 1 ==> (#[trigger] body_lines(c, own_aci, i, width)[j])
                == line_of(
                "  "@ + lines[j],
                Style::Plain,
                c.selected_message matches Some(k) && k == i,
            ),
        body_lines(c, own_aci, i, width).last() == line_of(
            "  "@ + lines.last() + mark,
            Style::Plain,
            c.selected_message matches Some(k) && k == i,
        ),
{
    reveal_strlit("");
    reveal_strlit("\n");
    assert("\n"@ == seq!['\n']);
    let body = body_of(c.messages[i]);
    let parts = split_on(body, '\n');
    crate::text::lemma_split_parts(body, '\n');
    crate::text::lemma_split_nonempty(body, '\n');
    lemma_rewrapped_lines(parts, text_width(width));
    if width > 2 {
        law_wrapped_text_keeps_words(body, (width - 2) as nat);
        crate::wrap::lemma_wrap_nonempty(body, (width - 2) as nat);
    } else {
        crate::text::lemma_join_split(body, '\n');
    }
    let selected = c.selected_message == Some(i as usize);
    let all = body_lines(c, own_aci, i, width);
    assert forall|j: int| 0 <= j < lines.len() - 1 implies (#[trigger] all[j]) == line_of(
        "  "@ + lines[j],
        Style::Plain,
        selected,
    ) by {
        assert("  "@ + lines[j] + ""@ == "  "@ + lines[j]);
    }
}

/// Every line of a message is drawn: those of two texts with a line feed between
/// them are those of the first and then those of the second, and each has at least
/// one.
pub proof fn law_every_line_is_drawn(a: Seq<char>, b: Seq<char>, width: nat)
    ensures
        rewrapped(split_on(a.push('\n') + b, '\n'), width) == rewrapped(split_on(a, '\n'), width)
            + rewrapped(split_on(b, '\n'), width),
        rewrapped(split_on(a, '\n'), width).len() >= 1,
        rewrapped(split_on(b, '\n'), width).len() >= 1,
{
    crate::text::lemma_split_both(a, b, '\n');
    crate::text::lemma_split_parts(a, '\n');
    crate::text::lemma_split_parts(b, '\n');
    crate::text::lemma_split_parts(a.push('\n') + b, '\n');
    crate::text::lemma_split_nonempty(a, '\n');
    crate::text::lemma_split_nonempty(b, '\n');
    lemma_rewrapped_lines(split_on(a, '\n'), width);
    lemma_rewrapped_lines(split_on(b, '\n'), width);
    lemma_rewrapped_lines(split_on(a.push('\n') + b, '\n'), width);
    lemma_rewrapped_nonempty(split_on(a, '\n'), width);
    lemma_rewrapped_nonempty(split_on(b, '\n'), width);
    if width > 0 {
        law_line_feeds_part_lines(a, b, width);
    }
}

/// A sender is shown as "You" if it is this account; in a group by the name in the
/// roster, or the identifier without one; else by the name of the chat.
pub proof fn law_senders_are_named(c: ChatView, own_aci: Option<Uuid>, sender: Uuid)
    ensures
        own_aci == Some(sender) ==> label_of(c, own_aci, sender) == "You"@,
        own_aci != Some(sender) && c.thread is Contact ==> label_of(c, own_aci, sender)
            == c.thread_name,
        own_aci != Some(sender) && c.thread is Group && name_in(c.sender_names, sender) is Some
            ==> label_of(c, own_aci, sender) == name_in(c.sender_names, sender)->0,
        own_aci != Some(sender) && c.thread is Group && name_in(c.sender_names, sender) is None
            ==> label_of(c, own_aci, sender) == uuid_text(sender),
{
}

/// What stands above a message: more than an hour after the one before it, an empty
/// line, the date and time in the middle, and an empty line; with a new sender, an
/// empty line; then, in both cases and above the first message, the sender and the
/// time. A message of the same sender has nothing above it.
pub proof fn law_headers_name_sender_and_time(
    c: ChatView,
    own_aci: Option<Uuid>,
    i: int,
    at: TimesView,
    width: nat,
)
    requires
        0 <= i < c.messages.len() <= usize::MAX,
    ensures
        ({
            let m = c.messages[i];
            let p = c.messages[i - 1];
            let head = head_lines(c, own_aci, i, at, width);
            let blank = line_of(""@, Style::Plain, false);
            let header = LineView {
                spans: seq![
                    SpanView {
                        text: label_of(c, own_aci, m.sender),
                        style: if own_aci == Some(m.sender) {
                            Style::Own
                        } else {
                            Style::Other
                        },
                    },
                    SpanView { text: "  "@ + at.short, style: Style::Dim },
                ],
                highlighted: c.selected_message matches Some(k) && k == i,
            };
            let far = i > 0 && m.timestamp > p.timestamp + 3_600_000;
            let other = (own_aci == Some(m.sender)) != (own_aci == Some(p.sender)) || (
            c.thread is Group && m.sender != p.sender);
            &&& i == 0 ==> head == seq![header]
            &&& far ==> head == seq![
                blank,
                line_of(centered("── "@ + at.long + " ──"@, width, ' '), Style::Dim, false),
                blank,
                header,
            ]
            &&& i > 0 && !far && other ==> head == seq![blank, header]
            &&& i > 0 && !far && !other ==> head.len() == 0
        }),
{
    let m = c.messages[i];
    let header = header_line(
        label_of(c, own_aci, m.sender),
        is_own(m, own_aci),
        at,
        c.selected_message == Some(i as usize),
    );
    let head = head_lines(c, own_aci, i, at, width);
    assert(Seq::<LineView>::empty().push(header) == seq![header]);
    assert(seq![line_of(""@, Style::Plain, false)].push(header) == seq![
        line_of(""@, Style::Plain, false),
        header,
    ]);
    assert(gap_lines(at, width).push(header) == seq![
        line_of(""@, Style::Plain, false),
        line_of(centered("── "@ + at.long + " ──"@, width, ' '), Style::Dim, false),
        line_of(""@, Style::Plain, false),
        header,
    ]);
}

/// A quote is drawn on two lines: its author, and the first line of what is quoted,
/// or an ellipsis. A message without one has no such lines.
pub proof fn law_quotes_are_drawn(c: ChatView, own_aci: Option<Uuid>, i: int)
    requires
        0 <= i < c.messages.len() <= usize::MAX,
    ensures
        quote_of(c.messages[i]) is None ==> quote_lines(c, own_aci, i).len() == 0,
        quote_of(c.messages[i]) matches Some((author, first)) ==> quote_lines(c, own_aci, i) == seq![
            line_of(
                "  > "@ + label_of(c, own_aci, author) + ":"@,
                Style::Dim,
                c.selected_message matches Some(k) && k == i,
            ),
            line_of(
                if first.len() == 0 {
                    "  > "@ + "…"@
                } else {
                    "  > "@ + first
                },
                Style::Dim,
                c.selected_message matches Some(k) && k == i,
            ),
        ],
{
}

/// The reactions to a message are drawn on one line below it, in brackets; without
/// any there is no such line.
pub proof fn law_reactions_are_drawn(c: ChatView, i: int)
    requires
        0 <= i < c.messages.len() <= usize::MAX,
    ensures
        c.reactions.at(c.messages[i].timestamp).len() == 0 ==> reaction_lines(c, i).len() == 0,
        c.reactions.at(c.messages[i].timestamp).len() > 0 ==> reaction_lines(c, i) == seq![
            line_of(
                "  "@ + ("["@ + join_of(
                    pair_texts(c.reactions.at(c.messages[i].timestamp)),
                    ", "@,
                ) + "]"@),
                Style::Dim,
                c.selected_message matches Some(k) && k == i,
            ),
        ],
{
}

proof fn lemma_lines_prefix(
    c: ChatView,
    own_aci: Option<Uuid>,
    times: Seq<TimesView>,
    width: nat,
    i: int,
    j: int,
)
    requires
        0 <= i <= j,
    ensures
        lines_upto(c, own_aci, times, width, i).is_prefix_of(
            lines_upto(c, own_aci, times, width, j),
        ),
    decreases j - i,
{
    if i < j {
        lemma_lines_prefix(c, own_aci, times, width, i, j - 1);
    }
}

/// The lines of a message, from its first to its last, are what stands above it, its
/// quote, its text and its reactions, in this order.
pub proof fn law_message_is_drawn_in_order(
    layout: Layout,
    c: ChatView,
    own_aci: Option<Uuid>,
    times: Seq<TimesView>,
    width: nat,
    i: int,
)
    requires
        layout.is_of(c, own_aci, times, width),
        0 <= i < c.messages.len(),
    ensures
        layout.starts@.len() == c.messages.len(),
        layout.ends@.len() == c.messages.len(),
        line_views(layout.lines@).subrange(layout.starts@[i] as int, layout.ends@[i] + 1)
            == head_lines(c, own_aci, i, times[i], width) + quote_lines(c, own_aci, i)
            + body_lines(c, own_aci, i, width) + reaction_lines(c, i),
{
    let n = c.messages.len() as int;
    let before = lines_upto(c, own_aci, times, width, i);
    let upto = lines_upto(c, own_aci, times, width, i + 1);
    let all = lines_upto(c, own_aci, times, width, n);
    lemma_lines_prefix(c, own_aci, times, width, i + 1, n);
    lemma_block_nonempty(c, own_aci, i, times[i], width);
    assert(upto == before + block_of(c, own_aci, i, times[i], width));
    let block = block_of(c, own_aci, i, times[i], width);
    assert(all.take(upto.len() as int) == upto);
    let part = all.subrange(before.len() as int, upto.len() as int);
    assert(part.len() == block.len());
    assert forall|k: int| 0 <= k < part.len() implies part[k] == block[k] by {
        assert(part[k] == all[before.len() + k]);
        assert(all.take(upto.len() as int)[before.len() + k] == upto[before.len() + k]);
    }
    assert(part == block);
}

} // verus!
