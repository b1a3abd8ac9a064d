//! Which lines of the message area are in view.

use vstd::prelude::*;

use crate::chat::{lesser, ChatState, ChatView};
use crate::ids::Uuid;
use crate::layout::{law_messages_follow_each_other, message_lines, Layout, TimesView};
use crate::times::{is_long_label, is_short_label};

verus! {

/// The difference of two numbers, but no less than 0.
pub open spec fn less(a: int, b: int) -> int {
    if a >= b {
        a - b
    } else {
        0
    }
}

/// How far the view can be scrolled up.
pub open spec fn max_scroll(total: int, height: int) -> int {
    less(total, height)
}

/// The first line in view.
pub open spec fn top_row(scroll: int, total: int, height: int) -> int {
    less(max_scroll(total, height), scroll)
}

/// The scrolling that brings the lines from `start` to `end` into view with one
/// line around them: as it was if they are, else just far enough.
pub open spec fn brought_into_view(
    scroll: int,
    start: int,
    end: int,
    total: int,
    height: int,
) -> int {
    let max = max_scroll(total, height);
    let row = top_row(scroll, total, height);
    if start < row + 1 {
        less(max, less(start, 1))
    } else if end + 1 >= row + height {
        less(max, less(end + 2, height))
    } else {
        scroll
    }
}

/// The scrolling after the area was drawn: no further up than the first line,
/// and so that the lines of the selected message, if there is one, are in view.
pub open spec fn scroll_after(
    scroll: int,
    selected: Option<(int, int)>,
    total: int,
    height: int,
) -> int {
    let clamped = lesser(scroll, max_scroll(total, height));
    match selected {
        Some((start, end)) => brought_into_view(clamped, start, end, total, height),
        None => clamped,
    }
}

fn minus(a: usize, b: usize) -> (r: usize)
    ensures
        r == less(a as int, b as int),
{
    if a >= b {
        a - b
    } else {
        0
    }
}

/// The scrolling after the area was drawn.
pub fn scroll_to_selection(
    scroll: usize,
    selected: Option<(usize, usize)>,
    total: usize,
    height: usize,
) -> (r: usize)
    ensures
        r == scroll_after(
            scroll as int,
            match selected {
                Some((start, end)) => Some((start as int, end as int)),
                None => None,
            },
            total as int,
            height as int,
        ),
        r <= max_scroll(total as int, height as int),
{
    let max = minus(total, height);
    let clamped = if scroll <= max {
        scroll
    } else {
        max
    };
    match selected {
        None => clamped,
        Some((start, end)) => {
            let row = minus(max, clamped);
            if start <= row {
                minus(max, minus(start, 1))
            } else if end as u128 + 1 >= row as u128 + height as u128 {
                let target = end as u128 + 2;
                if target <= height as u128 {
                    max
                } else if target - height as u128 >= max as u128 {
                    0
                } else {
                    max - (target - height as u128) as usize
                }
            } else {
                clamped
            }
        },
    }
}

/// After the area was drawn the whole selected message is in view, if it fits
/// with one line to spare.
pub proof fn law_selected_message_is_in_view(
    scroll: int,
    start: int,
    end: int,
    total: int,
    height: int,
)
    requires
        0 <= scroll,
        0 <= start <= end < total,
        end - start + 2 <= height,
    ensures
        ({
            let after = scroll_after(scroll, Some((start, end)), total, height);
            let row = top_row(after, total, height);
            row <= start && end < row + height
        }),
{
}

/// The view never shows a line before the first one, and drawing again changes
/// nothing.
pub proof fn law_scrolling_settles(
    scroll: int,
    selected: Option<(int, int)>,
    total: int,
    height: int,
)
    requires
        0 <= scroll,
        0 <= total,
        0 <= height,
        selected matches Some((start, end)) ==> 0 <= start <= end < total && end - start + 2
            < height,
    ensures
        ({
            let after = scroll_after(scroll, selected, total, height);
            &&& 0 <= after <= max_scroll(total, height)
            &&& scroll_after(after, selected, total, height) == after
        }),
{
}

/// The first message whose last line is in view or below; the last message if
/// there is none.
pub open spec fn is_top_message(i: int, ends: Seq<usize>, row: int) -> bool {
    &&& 0 <= i < ends.len()
    &&& forall|j: int| 0 <= j < i ==> (#[trigger] ends[j]) < row
    &&& i < ends.len() - 1 ==> ends[i] >= row
}

fn top_message(ends: &Vec<usize>, row: usize) -> (i: usize)
    requires
        ends@.len() > 0,
    ensures
        is_top_message(i as int, ends@, row as int),
{
    let n = ends.len();
    let mut i: usize = 0;
    while i < n - 1 && ends[i] < row
        invariant
            n == ends@.len(),
            n > 0,
            i < n,
            forall|j: int| 0 <= j < i ==> (#[trigger] ends@[j]) < row,
        decreases n - i,
    {
        i += 1;
    }
    i
}

/// The lines of the selected message, if there is one.
pub open spec fn selected_lines(c: ChatView, layout: Layout) -> Option<(int, int)> {
    match c.selected_message {
        Some(i) => if i < layout.starts@.len() && i < layout.ends@.len() {
            Some((layout.starts@[i as int] as int, layout.ends@[i as int] as int))
        } else {
            None
        },
        None => None,
    }
}

impl ChatState {
    /// Takes note of how the message area is drawn; gives the first line in
    /// view.
    pub fn on_drawn(&mut self, layout: &Layout, height: u16) -> (row: usize)
        requires
            old(self)@.wf(),
            layout.ends@.len() > 0,
        ensures
            final(self)@.wf(),
            ({
                let total = layout.lines@.len() as int;
                let scroll = scroll_after(
                    old(self)@.scroll as int,
                    selected_lines(old(self)@, *layout),
                    total,
                    height as int,
                );
                &&& row == top_row(scroll, total, height as int)
                &&& final(self)@ == (ChatView {
                    scroll: scroll as usize,
                    viewport_height: height,
                    viewport_top_msg: final(self)@.viewport_top_msg,
                    ..old(self)@
                })
                &&& is_top_message(
                    final(self)@.viewport_top_msg as int,
                    layout.ends@,
                    row as int,
                )
            }),
    {
        let total = layout.lines.len();
        let h = height as usize;
        let selected = match self.selected_message {
            Some(i) => if i < layout.starts.len() && i < layout.ends.len() {
                Some((layout.starts[i], layout.ends[i]))
            } else {
                None
            },
            None => None,
        };
        let scroll = scroll_to_selection(self.scroll, selected, total, h);
        let row = minus(minus(total, h), scroll);
        self.scroll = scroll;
        self.viewport_height = height;
        self.viewport_top_msg = top_message(&layout.ends, row);
        row
    }

    /// Draws the message area: gives its lines and the first one in view; none
    /// without messages.
    pub fn draw_messages(&mut self, own_aci: Option<Uuid>, width: u16, height: u16) -> (r: Option<
        (Layout, usize),
    >)
        requires
            old(self)@.wf(),
        ensures
            final(self)@.wf(),
            r is Some <==> old(self)@.messages.len() > 0,
            r is None ==> final(self)@ == (ChatView { viewport_height: height, ..old(self)@ }),
            r matches Some((layout, row)) ==> {
                let total = layout.lines@.len() as int;
                let scroll = scroll_after(
                    old(self)@.scroll as int,
                    selected_lines(old(self)@, layout),
                    total,
                    height as int,
                );
                &&& row == top_row(scroll, total, height as int)
                &&& final(self)@ == (ChatView {
                    scroll: scroll as usize,
                    viewport_height: height,
                    viewport_top_msg: final(self)@.viewport_top_msg,
                    ..old(self)@
                })
                &&& is_top_message(
                    final(self)@.viewport_top_msg as int,
                    layout.ends@,
                    row as int,
                )
                &&& exists|times: Seq<TimesView>|
                    {
                        &&& times.len() == old(self)@.messages.len()
                        &&& forall|i: int|
                            0 <= i < times.len() ==> is_short_label(
                                old(self)@.messages[i].timestamp,
                                (#[trigger] times[i]).short,
                            ) && is_long_label(old(self)@.messages[i].timestamp, times[i].long)
                        &&& #[trigger] layout.is_of(old(self)@, own_aci, times, width as nat)
                    }
            },
    {
        if self.messages.len() == 0 {
            self.viewport_height = height;
            return None;
        }
        let layout = message_lines(self, own_aci, width as usize);
        let row = self.on_drawn(&layout, height);
        Some((layout, row))
    }
}

/// After the area was drawn, the lines of the selected message are in view, if
/// they fit with one line to spare.
pub proof fn law_drawn_selection_is_in_view(
    c: ChatView,
    layout: Layout,
    own_aci: Option<Uuid>,
    times: Seq<TimesView>,
    width: nat,
    height: int,
    i: int,
)
    requires
        layout.is_of(c, own_aci, times, width),
        c.selected_message == Some(i as usize),
        0 <= i < c.messages.len(),
        i <= usize::MAX,
        layout.ends@[i] - layout.starts@[i] + 2 <= height,
    ensures
        ({
            let total = layout.lines@.len() as int;
            let scroll = scroll_after(c.scroll as int, selected_lines(c, layout), total, height);
            let row = top_row(scroll, total, height);
            row <= layout.starts@[i] && layout.ends@[i] < row + height
        }),
{
    law_messages_follow_each_other(layout, c, own_aci, times, width, i);
    law_selected_message_is_in_view(
        c.scroll as int,
        layout.starts@[i] as int,
        layout.ends@[i] as int,
        layout.lines@.len() as int,
        height,
    );
}

/// The view is scrolled no further than the oldest line, and without a selection no
/// further than it was; scrolled to nothing it shows the newest lines.
pub proof fn law_view_stays_on_the_lines(scroll: int, total: int, height: int)
    requires
        0 <= scroll,
        0 <= height,
        0 <= total,
    ensures
        total <= height ==> scroll_after(scroll, None, total, height) == 0 && top_row(
            scroll,
            total,
            height,
        ) == 0,
        total > height && scroll <= total - height ==> scroll_after(scroll, None, total, height)
            == scroll && top_row(scroll, total, height) + scroll + height == total,
        total > height && scroll > total - height ==> scroll_after(scroll, None, total, height)
            == total - height && top_row(scroll, total, height) == 0,
{
}

/// A selection above the view is brought in with one line above it, one below the view
/// with one line below it; one that is in view with a line on either side leaves the
/// view as it is.
pub proof fn law_selection_is_brought_in_by_the_least(
    scroll: int,
    start: int,
    end: int,
    total: int,
    height: int,
)
    requires
        0 <= scroll,
        0 <= start <= end < total,
        2 < height < total,
        end - start + 3 <= height,
    ensures
        ({
            let after = scroll_after(scroll, Some((start, end)), total, height);
            let old_row = top_row(scroll, total, height);
            let row = top_row(after, total, height);
            &&& start <= old_row ==> row == (if start == 0 {
                0
            } else if start - 1 <= total - height {
                start - 1
            } else {
                total - height
            })
            &&& start > old_row && end + 1 >= old_row + height ==> row == (if end + 2 <= total {
                end + 2 - height
            } else {
                total - height
            })
            &&& start > old_row && end + 1 < old_row + height ==> row == old_row
        }),
{
}

/// The message noted as the first one in view is the one on the first line in view.
pub proof fn law_top_message_is_on_the_top_line(
    layout: Layout,
    c: ChatView,
    own_aci: Option<Uuid>,
    times: Seq<TimesView>,
    width: nat,
    row: int,
    i: int,
)
    requires
        layout.is_of(c, own_aci, times, width),
        0 <= row < layout.lines@.len(),
        is_top_message(i, layout.ends@, row),
        c.messages.len() > 0,
    ensures
        0 <= i < c.messages.len(),
        layout.starts@[i] <= row <= layout.ends@[i],
{
    law_messages_follow_each_other(layout, c, own_aci, times, width, i);
    if i > 0 {
        law_messages_follow_each_other(layout, c, own_aci, times, width, i - 1);
        assert(layout.ends@[i - 1] < row);
    }
}

/// The lines that have to be in view are those of the selected message.
pub proof fn law_selected_lines_are_those_of_the_message(c: ChatView, layout: Layout)
    ensures
        c.selected_message is None ==> selected_lines(c, layout) is None,
        c.selected_message matches Some(i) ==> i < layout.starts@.len() && i < layout.ends@.len()
            ==> selected_lines(c, layout) == Some(
            (layout.starts@[i as int] as int, layout.ends@[i as int] as int),
        ),
{
}

} // verus!
