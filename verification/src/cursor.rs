//! Movement of a cursor, given as a byte offset, through a text of several lines.

use vstd::prelude::*;

use crate::text::{
    byte_len, byte_length, char_index, char_pos, char_width, chars_of, is_boundary,
    lemma_boundary_ends, lemma_boundary_within, lemma_char_pos, lemma_offset_increases, lemma_split_nonempty, offset,
    pieces, split, split_on, utf8_width,
};

verus! {

/// The lines of a text.
pub open spec fn lines_of(s: Seq<char>) -> Seq<Seq<char>> {
    split_on(s, '\n')
}

/// The number of characters before line `k`, line ends included.
pub open spec fn chars_before(lines: Seq<Seq<char>>, k: int) -> nat
    decreases k,
{
    if k <= 0 {
        0
    } else {
        chars_before(lines, k - 1) + lines[k - 1].len() + 1
    }
}

/// The number of bytes before line `k`, line ends included.
pub open spec fn bytes_before(lines: Seq<Seq<char>>, k: int) -> nat
    decreases k,
{
    if k <= 0 {
        0
    } else {
        bytes_before(lines, k - 1) + byte_len(lines[k - 1]) + 1
    }
}

/// The line that a byte offset lies on.
pub open spec fn line_at(s: Seq<char>, b: int) -> int {
    lines_of(s.take(char_pos(s, b))).len() - 1
}

/// The number of characters between the start of the line and a byte offset.
pub open spec fn col_at(s: Seq<char>, b: int) -> int {
    lines_of(s.take(char_pos(s, b))).last().len() as int
}

/// The byte offset of a column on a line, or of the end of a shorter line.
pub open spec fn place_on_line(s: Seq<char>, line: int, col: int) -> nat {
    let text = lines_of(s)[line];
    let c = if col <= text.len() {
        col
    } else {
        text.len() as int
    };
    bytes_before(lines_of(s), line) + offset(text, c)
}

/// The byte offset one character to the left.
pub open spec fn left_of(s: Seq<char>, b: int) -> nat {
    let k = char_pos(s, b);
    if k == 0 {
        0
    } else {
        offset(s, k - 1)
    }
}

/// The byte offset one character to the right.
pub open spec fn right_of(s: Seq<char>, b: int) -> nat {
    if b >= byte_len(s) {
        byte_len(s)
    } else {
        offset(s, char_pos(s, b) + 1)
    }
}

/// A byte offset, or the end of the text for one past it.
pub open spec fn within(s: Seq<char>, b: int) -> int {
    if b <= byte_len(s) {
        b
    } else {
        byte_len(s) as int
    }
}

/// The byte offset one line up; on the first line the offset itself. An offset
/// past the end is on the last line, behind its last character.
pub open spec fn up_of(s: Seq<char>, b: int) -> nat {
    let at = within(s, b);
    if line_at(s, at) == 0 {
        b as nat
    } else {
        place_on_line(s, line_at(s, at) - 1, col_at(s, at))
    }
}

/// The byte offset one line down; on the last line the offset itself. An offset
/// past the end is on the last line.
pub open spec fn down_of(s: Seq<char>, b: int) -> nat {
    let at = within(s, b);
    if line_at(s, at) + 1 >= lines_of(s).len() {
        b as nat
    } else {
        place_on_line(s, line_at(s, at) + 1, col_at(s, at))
    }
}

// ── Lines and offsets ────────────────────────────────────────────────────────

proof fn lemma_before_agree(a: Seq<Seq<char>>, b: Seq<Seq<char>>, k: int)
    requires
        0 <= k <= a.len(),
        k <= b.len(),
        forall|i: int| 0 <= i < k ==> a[i] == b[i],
    ensures
        chars_before(a, k) == chars_before(b, k),
        bytes_before(a, k) == bytes_before(b, k),
    decreases k,
{
    if k > 0 {
        lemma_before_agree(a, b, k - 1);
    }
}

/// A text is as long as its lines with one line end between each two.
proof fn lemma_lines_total(s: Seq<char>)
    ensures
        lines_of(s).len() >= 1,
        s.len() == chars_before(lines_of(s), lines_of(s).len() - 1) + lines_of(s).last().len(),
        byte_len(s) == bytes_before(lines_of(s), lines_of(s).len() - 1) + byte_len(
            lines_of(s).last(),
        ),
    decreases s.len(),
{
    if s.len() > 0 {
        let t = s.drop_last();
        let lt = lines_of(t);
        let ls = lines_of(s);
        lemma_lines_total(t);
        if s.last() == '\n' {
            lemma_before_agree(lt, ls, lt.len() as int);
            assert(utf8_width('\n') == 1);
        } else {
            lemma_before_agree(lt, ls, lt.len() - 1);
            assert(ls.last().drop_last() == lt.last());
        }
    } else {
        assert(lines_of(s).last() == Seq::<char>::empty());
    }
}

/// Cutting a text off at any place cuts its list of lines off there.
proof fn lemma_cut(s: Seq<char>, k: int)
    requires
        0 <= k <= s.len(),
    ensures
        ({
            let cut = lines_of(s.take(k));
            let i = cut.len() - 1;
            &&& 0 <= i < lines_of(s).len()
            &&& cut.last().len() <= lines_of(s)[i].len()
            &&& cut.last() == lines_of(s)[i].take(cut.last().len() as int)
            &&& forall|j: int| 0 <= j < i ==> cut[j] == lines_of(s)[j]
            &&& k == chars_before(lines_of(s), i) + cut.last().len()
        }),
    decreases s.len(),
{
    lemma_lines_total(s);
    lemma_split_nonempty(s.take(k), '\n');
    if k == s.len() {
        assert(s.take(k) == s);
        assert(lines_of(s).last().take(lines_of(s).last().len() as int) == lines_of(s).last());
    } else {
        let t = s.drop_last();
        lemma_cut(t, k);
        assert(t.take(k) == s.take(k));
        let cut = lines_of(s.take(k));
        let i = cut.len() - 1;
        let c = cut.last().len() as int;
        assert(lines_of(t)[i].take(c) == lines_of(s)[i].take(c));
        lemma_before_agree(lines_of(t), lines_of(s), i);
    }
}

/// A column on a line, cut off there, leaves that line as the last one.
proof fn lemma_place(s: Seq<char>, i: int, c: int)
    requires
        0 <= i < lines_of(s).len(),
        0 <= c <= lines_of(s)[i].len(),
    ensures
        chars_before(lines_of(s), i) + c <= s.len(),
        lines_of(s.take(chars_before(lines_of(s), i) + c)) == lines_of(s).take(i).push(
            lines_of(s)[i].take(c),
        ),
        offset(s, chars_before(lines_of(s), i) + c) == bytes_before(lines_of(s), i) + offset(
            lines_of(s)[i],
            c,
        ),
    decreases s.len(),
{
    let ls = lines_of(s);
    let k = chars_before(ls, i) + c;
    lemma_lines_total(s);
    if s.len() == 0 {
        assert(ls == seq![Seq::<char>::empty()]);
        assert(ls[i].take(c) == ls[i]);
        assert(ls.take(i).push(ls[i]) == ls);
        assert(s.take(k) == s);
    } else {
        let t = s.drop_last();
        let lt = lines_of(t);
        lemma_lines_total(t);
        if i < lt.len() && c <= lt[i].len() {
            lemma_place(t, i, c);
            lemma_before_agree(lt, ls, i);
            assert(t.take(k) == s.take(k));
            assert(lt[i].take(c) == ls[i].take(c));
            assert(lt.take(i) == ls.take(i));
        } else {
            assert(i == ls.len() - 1);
            assert(c == ls[i].len());
            assert(ls[i].take(c) == ls[i]);
            assert(ls.take(i).push(ls[i]) == ls);
            assert(s.take(k) == s);
        }
    }
    lemma_lines_total(s.take(k));
    lemma_before_agree(ls, lines_of(s.take(k)), i);
}

/// A place on a line is a boundary on that line and, as far as the line
/// reaches, in that column.
proof fn lemma_place_on_line(s: Seq<char>, line: int, col: int)
    requires
        0 <= line < lines_of(s).len(),
        0 <= col,
    ensures
        is_boundary(s, place_on_line(s, line, col) as int),
        place_on_line(s, line, col) <= byte_len(s),
        line_at(s, place_on_line(s, line, col) as int) == line,
        col_at(s, place_on_line(s, line, col) as int) == (if col <= lines_of(s)[line].len() {
            col
        } else {
            lines_of(s)[line].len() as int
        }),
{
    let text = lines_of(s)[line];
    let c = if col <= text.len() {
        col
    } else {
        text.len() as int
    };
    lemma_place(s, line, c);
    let k = chars_before(lines_of(s), line) + c;
    lemma_char_pos(s, k);
    lemma_boundary_ends(s);
    if k < s.len() {
        lemma_offset_increases(s, k, s.len() as int);
    }
}

pub proof fn lemma_line_at(s: Seq<char>, b: int)
    requires
        is_boundary(s, b),
    ensures
        0 <= line_at(s, b) < lines_of(s).len(),
        0 <= col_at(s, b) <= lines_of(s)[line_at(s, b)].len(),
        b == place_on_line(s, line_at(s, b), col_at(s, b)),
{
    let k = char_pos(s, b);
    lemma_cut(s, k);
    lemma_place(s, line_at(s, b), col_at(s, b));
}

// ── Movement ─────────────────────────────────────────────────────────────────

/// The byte offset one character to the left of the cursor.
pub fn cursor_left(input: &str, cursor: usize) -> (r: usize)
    requires
        is_boundary(input@, cursor as int),
    ensures
        r == left_of(input@, cursor as int),
        is_boundary(input@, r as int),
{
    proof {
        lemma_boundary_ends(input@);
    }
    if cursor == 0 {
        return 0;
    }
    let chars = chars_of(input);
    let k = char_index(&chars, cursor);
    proof {
        if k == 0 {
            assert(false);
        }
        assert(chars@.take(k as int).drop_last() == chars@.take(k - 1));
        lemma_char_pos(input@, k - 1);
    }
    cursor - char_width(chars[k - 1])
}

/// The byte offset one character to the right of the cursor.
pub fn cursor_right(input: &str, cursor: usize) -> (r: usize)
    requires
        cursor >= byte_len(input@) || is_boundary(input@, cursor as int),
    ensures
        r == right_of(input@, cursor as int),
        is_boundary(input@, r as int),
{
    let len = byte_length(input);
    proof {
        lemma_boundary_ends(input@);
    }
    if cursor >= len {
        return len;
    }
    let chars = chars_of(input);
    let k = char_index(&chars, cursor);
    proof {
        if k == chars@.len() {
            assert(false);
        }
        assert(chars@.take(k + 1).drop_last() == chars@.take(k as int));
        if k + 1 < chars@.len() {
            lemma_offset_increases(input@, k + 1, input@.len() as int);
        }
        lemma_char_pos(input@, k + 1);
    }
    cursor + char_width(chars[k])
}

/// The line and the column of the cursor; an offset past the end counts as the
/// end.
pub fn cursor_line_col(input: &str, cursor: usize) -> (r: (usize, usize))
    requires
        cursor >= byte_len(input@) || is_boundary(input@, cursor as int),
    ensures
        r.0 == line_at(input@, within(input@, cursor as int)),
        r.1 == col_at(input@, within(input@, cursor as int)),
{
    let len = byte_length(input);
    let at = if cursor <= len {
        cursor
    } else {
        len
    };
    proof {
        lemma_boundary_ends(input@);
    }
    let mut before = chars_of(input);
    let k = char_index(&before, at);
    before.truncate(k);
    proof {
        assert(before@ == input@.take(k as int));
    }
    let parts = split(&before, '\n');
    let last = parts.len() - 1;
    proof {
        assert(pieces(parts@)[last as int] == parts@[last as int]@);
    }
    (last, parts[last].len())
}

/// The byte offset at which a line begins; past the last line, one more than
/// the length of the text.
pub fn line_byte_start(input: &str, line_idx: usize) -> (r: usize)
    requires
        line_idx < lines_of(input@).len() || byte_len(input@) < usize::MAX,
    ensures
        r == bytes_before(
            lines_of(input@),
            if line_idx <= lines_of(input@).len() {
                line_idx as int
            } else {
                lines_of(input@).len() as int
            },
        ),
{
    let chars = chars_of(input);
    let parts = split(&chars, '\n');
    let n = parts.len();
    let total = byte_length(input);
    let mut at: usize = 0;
    let mut i: usize = 0;
    let ghost lines = lines_of(input@);
    proof {
        lemma_lines_total(input@);
    }
    while i < n && i < line_idx
        invariant
            i <= n == parts@.len() == lines.len(),
            i <= line_idx,
            lines == lines_of(input@),
            pieces(parts@) == lines,
            total == byte_len(input@),
            line_idx < n || total < usize::MAX,
            at == bytes_before(lines, i as int),
        decreases n - i,
    {
        proof {
            assert(lines[i as int] == parts@[i as int]@);
            lemma_lines_total(input@);
            if i + 1 < n {
                lemma_place(input@, i + 1, 0);
                lemma_boundary_ends(input@);
                let k = chars_before(lines, i + 1) as int;
                if k < input@.len() {
                    lemma_offset_increases(input@, k, input@.len() as int);
                }
                lemma_boundary_ends(lines[i + 1]);
            }
        }
        at = at + bytes_of(&parts[i]) + 1;
        i += 1;
    }
    at
}

/// The number of bytes of a list of characters, if the caller knows that they
/// fit.
fn bytes_of(chars: &Vec<char>) -> (r: usize)
    requires
        byte_len(chars@) <= usize::MAX,
    ensures
        r == byte_len(chars@),
{
    proof {
        lemma_boundary_ends(chars@);
    }
    prefix_bytes(chars, chars.len())
}

/// The byte offset of character `end`.
fn prefix_bytes(chars: &Vec<char>, end: usize) -> (r: usize)
    requires
        end <= chars@.len(),
        offset(chars@, end as int) <= usize::MAX,
    ensures
        r == offset(chars@, end as int),
        end == chars@.len() ==> r == byte_len(chars@),
{
    let mut at: usize = 0;
    let mut i: usize = 0;
    proof {
        lemma_boundary_ends(chars@);
    }
    while i < end
        invariant
            i <= end <= chars@.len(),
            offset(chars@, end as int) <= usize::MAX,
            at == offset(chars@, i as int),
        decreases end - i,
    {
        proof {
            assert(chars@.take(i + 1).drop_last() == chars@.take(i as int));
            if i + 1 < end {
                lemma_offset_increases(chars@, i + 1, end as int);
            }
        }
        at = at + char_width(chars[i]);
        i += 1;
    }
    at
}

/// The byte offset of a column on an existing line.
fn on_line(input: &str, line: usize, col: usize) -> (r: usize)
    requires
        line < lines_of(input@).len(),
    ensures
        r == place_on_line(input@, line as int, col as int),
        is_boundary(input@, r as int),
{
    let chars = chars_of(input);
    let parts = split(&chars, '\n');
    let text = &parts[line];
    proof {
        assert(pieces(parts@)[line as int] == text@);
        lemma_place_on_line(input@, line as int, col as int);
    }
    // The whole length fits, hence so does the sum below.
    let _ = byte_length(input);
    let c = if col <= text.len() {
        col
    } else {
        text.len()
    };
    line_byte_start(input, line) + prefix_bytes(text, c)
}

/// The byte offset one line above the cursor, in the same column or at the end
/// of a shorter line.
pub fn cursor_up(input: &str, cursor: usize) -> (r: usize)
    requires
        cursor >= byte_len(input@) || is_boundary(input@, cursor as int),
    ensures
        r == up_of(input@, cursor as int),
        r == cursor || is_boundary(input@, r as int),
{
    proof {
        lemma_boundary_ends(input@);
        lemma_line_at(input@, within(input@, cursor as int));
    }
    let (line, col) = cursor_line_col(input, cursor);
    if line == 0 {
        return cursor;
    }
    on_line(input, line - 1, col)
}

/// The byte offset one line below the cursor, in the same column or at the end
/// of a shorter line.
pub fn cursor_down(input: &str, cursor: usize) -> (r: usize)
    requires
        cursor >= byte_len(input@) || is_boundary(input@, cursor as int),
    ensures
        r == down_of(input@, cursor as int),
        r == cursor || is_boundary(input@, r as int),
{
    proof {
        lemma_boundary_ends(input@);
        lemma_line_at(input@, within(input@, cursor as int));
    }
    let (line, col) = cursor_line_col(input, cursor);
    let chars = chars_of(input);
    let parts = split(&chars, '\n');
    proof {
        assert(pieces(parts@).len() == parts@.len());
    }
    if line >= parts.len() - 1 {
        return cursor;
    }
    on_line(input, line + 1, col)
}

// ── Laws ─────────────────────────────────────────────────────────────────────

/// A step to the right and a step to the left undo each other, except at the
/// end where there is no step to the right.
pub proof fn law_left_undoes_right(s: Seq<char>, b: int)
    requires
        is_boundary(s, b),
        b < byte_len(s),
    ensures
        left_of(s, right_of(s, b) as int) == b,
        is_boundary(s, right_of(s, b) as int),
{
    let k = char_pos(s, b);
    lemma_boundary_ends(s);
    lemma_char_pos(s, k + 1);
}

/// A step to the left and a step to the right undo each other, except at the
/// start where there is no step to the left.
pub proof fn law_right_undoes_left(s: Seq<char>, b: int)
    requires
        is_boundary(s, b),
        b > 0,
    ensures
        right_of(s, left_of(s, b) as int) == b,
        is_boundary(s, left_of(s, b) as int),
{
    let k = char_pos(s, b);
    lemma_boundary_ends(s);
    lemma_char_pos(s, k - 1);
    lemma_offset_increases(s, k - 1, s.len() as int);
}

/// Moving up goes to the line above and keeps the column, or stops at the end
/// of a shorter line.
pub proof fn law_up_moves_one_line(s: Seq<char>, b: int)
    requires
        is_boundary(s, b),
        line_at(s, b) > 0,
    ensures
        is_boundary(s, up_of(s, b) as int),
        line_at(s, up_of(s, b) as int) == line_at(s, b) - 1,
        col_at(s, up_of(s, b) as int) == (if col_at(s, b) <= lines_of(s)[line_at(s, b) - 1].len() {
            col_at(s, b)
        } else {
            lines_of(s)[line_at(s, b) - 1].len() as int
        }),
{
    lemma_boundary_within(s, b);
    lemma_line_at(s, b);
    lemma_place_on_line(s, line_at(s, b) - 1, col_at(s, b));
}

/// Moving down goes to the line below and keeps the column, or stops at the end
/// of a shorter line.
pub proof fn law_down_moves_one_line(s: Seq<char>, b: int)
    requires
        is_boundary(s, b),
        line_at(s, b) + 1 < lines_of(s).len(),
    ensures
        is_boundary(s, down_of(s, b) as int),
        line_at(s, down_of(s, b) as int) == line_at(s, b) + 1,
        col_at(s, down_of(s, b) as int) == (if col_at(s, b) <= lines_of(s)[line_at(s, b) + 1].len() {
            col_at(s, b)
        } else {
            lines_of(s)[line_at(s, b) + 1].len() as int
        }),
{
    lemma_boundary_within(s, b);
    lemma_line_at(s, b);
    lemma_place_on_line(s, line_at(s, b) + 1, col_at(s, b));
}

/// Down and up again returns to the place, where the line below is long enough
/// for the column.
pub proof fn law_up_undoes_down(s: Seq<char>, b: int)
    requires
        is_boundary(s, b),
        line_at(s, b) + 1 < lines_of(s).len(),
        col_at(s, b) <= lines_of(s)[line_at(s, b) + 1].len(),
    ensures
        up_of(s, down_of(s, b) as int) == b,
{
    law_down_moves_one_line(s, b);
    lemma_boundary_within(s, down_of(s, b) as int);
    lemma_line_at(s, b);
}

/// Up and down again returns to the place, where the line above is long enough
/// for the column.
pub proof fn law_down_undoes_up(s: Seq<char>, b: int)
    requires
        is_boundary(s, b),
        line_at(s, b) > 0,
        col_at(s, b) <= lines_of(s)[line_at(s, b) - 1].len(),
    ensures
        down_of(s, up_of(s, b) as int) == b,
{
    law_up_moves_one_line(s, b);
    lemma_boundary_within(s, up_of(s, b) as int);
    lemma_line_at(s, b);
}

/// The start of a line is its column 0.
pub proof fn law_line_starts_in_column_zero(s: Seq<char>, line: int)
    requires
        0 <= line < lines_of(s).len(),
    ensures
        is_boundary(s, bytes_before(lines_of(s), line) as int),
        line_at(s, bytes_before(lines_of(s), line) as int) == line,
        col_at(s, bytes_before(lines_of(s), line) as int) == 0,
{
    lemma_place_on_line(s, line, 0);
    lemma_boundary_ends(lines_of(s)[line]);
}

/// The line of the cursor is the number of line feeds before it, and its column the number
/// of characters since the last one.
pub proof fn law_line_and_column_of_the_cursor(
    before: Seq<char>,
    part: Seq<char>,
    behind: Seq<char>,
)
    requires
        !part.contains('\n'),
    ensures
        line_at(part + behind, byte_len(part) as int) == 0,
        col_at(part + behind, byte_len(part) as int) == part.len(),
        ({
            let head = before.push('\n') + part;
            let s = head + behind;
            &&& line_at(s, byte_len(head) as int) == line_at(
                before + seq!['\n'],
                byte_len(before) as int,
            ) + 1
            &&& col_at(s, byte_len(head) as int) == part.len()
        }),
{
    let s0 = part + behind;
    assert(s0.take(part.len() as int) == part);
    lemma_char_pos(s0, part.len() as int);
    crate::text::lemma_split_one(part, '\n');
    let head = before.push('\n') + part;
    let s = head + behind;
    assert(s.take(head.len() as int) == head);
    lemma_char_pos(s, head.len() as int);
    crate::text::lemma_split_both(before, part, '\n');
    lemma_split_nonempty(before, '\n');
    let b = before + seq!['\n'];
    assert(b.take(before.len() as int) == before);
    lemma_char_pos(b, before.len() as int);
    assert(split_on(head, '\n').last() == part);
}

proof fn lemma_same_lines(head: Seq<char>, rest: Seq<char>)
    requires
        !rest.contains('\n'),
    ensures
        lines_of(head + rest).len() == lines_of(head).len(),
    decreases rest.len(),
{
    if rest.len() == 0 {
        assert(head + rest == head);
    } else {
        let t = rest.drop_last();
        assert(rest.contains(rest.last()));
        assert forall|c: char| t.contains(c) implies #[trigger] rest.contains(c) by {
            let i = choose|i: int| 0 <= i < t.len() && t[i] == c;
            assert(rest[i] == c);
        }
        lemma_same_lines(head, t);
        assert((head + rest).drop_last() == head + t);
        assert((head + rest).last() == rest.last());
        lemma_split_nonempty(head + t, '\n');
    }
}

/// On the first line the cursor does not go up, and on the last line not down.
pub proof fn law_cursor_stays_between_first_and_last_line(head: Seq<char>, rest: Seq<char>)
    ensures
        !head.contains('\n') ==> up_of(head + rest, byte_len(head) as int) == byte_len(head),
        !rest.contains('\n') ==> down_of(head + rest, byte_len(head) as int) == byte_len(head),
{
    let s = head + rest;
    assert(s.take(head.len() as int) == head);
    lemma_char_pos(s, head.len() as int);
    crate::text::lemma_byte_len_concat(head, rest);
    if !head.contains('\n') {
        crate::text::lemma_split_one(head, '\n');
    }
    if !rest.contains('\n') {
        lemma_same_lines(head, rest);
    }
}

} // verus!
