//! Changes to a text at a cursor, which is a byte offset into the text.

use vstd::prelude::*;

use crate::cursor::left_of;
use crate::text::{
    byte_len, byte_length, char_index, char_pos, chars_of, is_boundary, lemma_boundary_ends,
    lemma_byte_len_concat, lemma_char_pos, offset, string_of, utf8_width,
};

verus! {

/// The text with another one put in at a byte offset.
pub open spec fn inserted(s: Seq<char>, b: int, t: Seq<char>) -> Seq<char> {
    let k = char_pos(s, b);
    s.take(k) + t + s.skip(k)
}

/// The text without the character before a byte offset.
pub open spec fn rubbed_out(s: Seq<char>, b: int) -> Seq<char> {
    let k = char_pos(s, b);
    if k == 0 {
        s
    } else {
        s.remove(k - 1)
    }
}

/// The text with the bytes from one offset to another replaced.
pub open spec fn replaced(s: Seq<char>, from: int, to: int, t: Seq<char>) -> Seq<char> {
    s.take(char_pos(s, from)) + t + s.skip(char_pos(s, to))
}

/// The byte offsets around a text that stands between two others.
pub proof fn lemma_around(a: Seq<char>, t: Seq<char>, b: Seq<char>)
    ensures
        offset(a + t + b, a.len() as int) == byte_len(a),
        offset(a + t + b, (a.len() + t.len()) as int) == byte_len(a) + byte_len(t),
        byte_len(a + t + b) == byte_len(a) + byte_len(t) + byte_len(b),
{
    assert((a + t + b).take(a.len() as int) == a);
    assert((a + t + b).take((a.len() + t.len()) as int) == a + t);
    lemma_byte_len_concat(a, t);
    lemma_byte_len_concat(a + t, b);
}

fn put_between(before: String, text: &str, after: &str) -> (r: (String, usize))
    ensures
        r.0@ == before@ + text@ + after@,
        r.1 == byte_len(before@) + byte_len(text@),
        is_boundary(r.0@, r.1 as int),
        char_pos(r.0@, r.1 as int) == before@.len() + text@.len(),
{
    let head = before.concat(text);
    let cursor = byte_length(head.as_str());
    let r = head.concat(after);
    proof {
        lemma_byte_len_concat(before@, text@);
        lemma_around(before@, text@, after@);
        lemma_char_pos(r@, (before@.len() + text@.len()) as int);
    }
    (r, cursor)
}

/// Puts a text in at the cursor, which moves behind it.
pub fn insert_text(input: &str, cursor: usize, text: &str) -> (r: (String, usize))
    requires
        is_boundary(input@, cursor as int),
    ensures
        r.0@ == inserted(input@, cursor as int, text@),
        r.1 == cursor + byte_len(text@),
        is_boundary(r.0@, r.1 as int),
{
    let chars = chars_of(input);
    let k = char_index(&chars, cursor);
    let n = chars.len();
    let before = string_of(&chars, 0, k);
    let after = string_of(&chars, k, n);
    proof {
        assert(before@ == input@.take(k as int));
        assert(after@ == input@.skip(k as int));
    }
    put_between(before, text, after.as_str())
}

/// Removes the character before the cursor, if there is one.
pub fn rub_out(input: &str, cursor: usize) -> (r: (String, usize))
    requires
        is_boundary(input@, cursor as int),
    ensures
        r.0@ == rubbed_out(input@, cursor as int),
        r.1 == left_of(input@, cursor as int),
        is_boundary(r.0@, r.1 as int),
{
    let chars = chars_of(input);
    let k = char_index(&chars, cursor);
    let n = chars.len();
    if k == 0 {
        proof {
            lemma_boundary_ends(input@);
        }
        return (input.to_owned(), 0);
    }
    let before = string_of(&chars, 0, k - 1);
    let after = string_of(&chars, k, n);
    let left = byte_length(before.as_str());
    proof {
        assert(before@ == input@.take(k - 1));
        assert(after@ == input@.skip(k as int));
        assert(before@ + after@ == input@.remove(k - 1));
        assert((before@ + after@).take(k - 1) == before@);
        assert(offset(before@ + after@, k - 1) == left);
    }
    (before.concat(after.as_str()), left)
}

/// Replaces the text from one offset to the cursor; the cursor moves behind the
/// new text.
pub fn replace_range(input: &str, from: usize, to: usize, text: &str) -> (r: (String, usize))
    requires
        is_boundary(input@, from as int),
        is_boundary(input@, to as int),
    ensures
        r.0@ == replaced(input@, from as int, to as int, text@),
        r.1 == from + byte_len(text@),
        is_boundary(r.0@, r.1 as int),
{
    let chars = chars_of(input);
    let i = char_index(&chars, from);
    let k = char_index(&chars, to);
    let n = chars.len();
    let before = string_of(&chars, 0, i);
    let after = string_of(&chars, k, n);
    proof {
        assert(before@ == input@.take(i as int));
        assert(after@ == input@.skip(k as int));
    }
    put_between(before, text, after.as_str())
}

/// Rubbing out takes back what typing a character did.
pub proof fn law_rubbing_out_undoes_typing(s: Seq<char>, b: int, c: char)
    requires
        is_boundary(s, b),
    ensures
        ({
            let t = inserted(s, b, seq![c]);
            let after = b + utf8_width(c);
            &&& is_boundary(t, after)
            &&& rubbed_out(t, after) == s
            &&& left_of(t, after) == b
        }),
{
    let k = char_pos(s, b);
    let t = inserted(s, b, seq![c]);
    lemma_around(s.take(k), seq![c], s.skip(k));
    lemma_one_char(c);
    lemma_char_pos(t, k + 1);
    assert(offset(t, k) == b);
    assert(t.remove(k) == s);
}

/// The width of a single character.
pub proof fn lemma_one_char(c: char)
    ensures
        byte_len(seq![c]) == utf8_width(c),
{
    reveal_with_fuel(byte_len, 2);
    assert(seq![c].drop_last() == Seq::<char>::empty());
    assert(seq![c].last() == c);
}

/// What is put in stands before the new cursor, and what stood behind the old
/// one stands behind the new one.
pub proof fn law_inserted_text_stands_before_cursor(s: Seq<char>, b: int, t: Seq<char>)
    requires
        is_boundary(s, b),
    ensures
        ({
            let r = inserted(s, b, t);
            let after = b + byte_len(t);
            let k = char_pos(r, after);
            &&& is_boundary(r, after)
            &&& r.take(k) == s.take(char_pos(s, b)) + t
            &&& r.skip(k) == s.skip(char_pos(s, b))
        }),
{
    let k = char_pos(s, b);
    let r = inserted(s, b, t);
    lemma_around(s.take(k), t, s.skip(k));
    lemma_char_pos(r, k + t.len());
    assert(r.take(k + t.len()) == s.take(k) + t);
    assert(r.skip(k + t.len()) == s.skip(k));
}

/// What stands between two places is replaced, and nothing else.
pub proof fn law_replacing_keeps_the_rest(
    a: Seq<char>,
    b: Seq<char>,
    c: Seq<char>,
    t: Seq<char>,
)
    ensures
        replaced(a + b + c, byte_len(a) as int, byte_len(a + b) as int, t) == a + t + c,
        inserted(a + c, byte_len(a) as int, t) == a + t + c,
{
    let s = a + b + c;
    assert(s.take(a.len() as int) == a);
    assert(s.take((a + b).len() as int) == a + b);
    lemma_char_pos(s, a.len() as int);
    lemma_char_pos(s, (a + b).len() as int);
    assert(s.skip((a + b).len() as int) == c);
    let u = a + c;
    assert(u.take(a.len() as int) == a);
    lemma_char_pos(u, a.len() as int);
    assert(u.skip(a.len() as int) == c);
}

} // verus!
