//! Text as a sequence of characters: lengths in UTF-8 bytes, splitting,
//! trimming, ordering and rendering of numbers.

use vstd::prelude::*;
use vstd::utf8::{char_is_scalar, encode_scalar, encode_utf8};

verus! {

/// `String::push`: appends one character to the end of the string.
pub assume_specification[ String::push ](s: &mut String, c: char)
    ensures
        final(s)@ == old(s)@.push(c),
;

/// The contents of a list of strings.
pub open spec fn texts(v: Seq<String>) -> Seq<Seq<char>> {
    v.map_values(|s: String| s@)
}

/// The contents of a list of character lists.
pub open spec fn pieces(v: Seq<Vec<char>>) -> Seq<Seq<char>> {
    v.map_values(|s: Vec<char>| s@)
}

/// The characters of a string.
pub fn chars_of(s: &str) -> (r: Vec<char>)
    ensures
        r@ == s@,
{
    let mut out: Vec<char> = Vec::new();
    for c in it: s.chars()
        invariant
            out@ == it.seq().take(it.index()),
            it.seq() == s@,
    {
        out.push(c);
    }
    out
}

/// The string made of the characters `from..to` of a list.
pub fn string_of(chars: &Vec<char>, from: usize, to: usize) -> (r: String)
    requires
        from <= to <= chars@.len(),
    ensures
        r@ == chars@.subrange(from as int, to as int),
{
    let mut out = String::new();
    let mut i: usize = from;
    while i < to
        invariant
            from <= i <= to <= chars@.len(),
            out@ == chars@.subrange(from as int, i as int),
        decreases to - i,
    {
        out.push(chars[i]);
        i += 1;
    }
    out
}

/// The string made of all characters of a list.
pub fn string_of_all(chars: &Vec<char>) -> (r: String)
    ensures
        r@ == chars@,
{
    string_of(chars, 0, chars.len())
}

/// Whether two strings hold the same characters.
pub fn same(a: &str, b: &str) -> (r: bool)
    ensures
        r == (a@ == b@),
{
    a.to_owned() == b.to_owned()
}

/// A copy of an optional string.
pub fn copy_opt(s: &Option<String>) -> (r: Option<String>)
    ensures
        r == *s,
{
    match s {
        Some(t) => Some(t.clone()),
        None => None,
    }
}

// ── Lengths in bytes ─────────────────────────────────────────────────────────

/// The number of bytes that a character takes in UTF-8.
pub open spec fn utf8_width(c: char) -> nat {
    if (c as u32) < 0x80 {
        1
    } else if (c as u32) < 0x800 {
        2
    } else if (c as u32) < 0x10000 {
        3
    } else {
        4
    }
}

/// The number of bytes that a text takes in UTF-8.
pub open spec fn byte_len(s: Seq<char>) -> nat
    decreases s.len(),
{
    if s.len() == 0 {
        0
    } else {
        byte_len(s.drop_last()) + utf8_width(s.last())
    }
}

/// The byte offset at which character `k` of a text begins.
pub open spec fn offset(s: Seq<char>, k: int) -> nat {
    byte_len(s.take(k))
}

/// Whether a byte offset lies between two characters of a text, or at an end.
pub open spec fn is_boundary(s: Seq<char>, b: int) -> bool {
    exists|k: int| 0 <= k <= s.len() && #[trigger] offset(s, k) == b
}

/// The number of characters before a byte offset.
pub open spec fn char_pos(s: Seq<char>, b: int) -> int {
    choose|k: int| 0 <= k <= s.len() && #[trigger] offset(s, k) == b
}

pub proof fn lemma_byte_len_concat(a: Seq<char>, b: Seq<char>)
    ensures
        byte_len(a + b) == byte_len(a) + byte_len(b),
    decreases b.len(),
{
    if b.len() == 0 {
        assert(a + b == a);
    } else {
        assert((a + b).drop_last() == a + b.drop_last());
        lemma_byte_len_concat(a, b.drop_last());
    }
}

/// Byte offsets grow with the character index.
pub proof fn lemma_offset_increases(s: Seq<char>, i: int, j: int)
    requires
        0 <= i < j <= s.len(),
    ensures
        offset(s, i) < offset(s, j),
    decreases j - i,
{
    assert(s.take(j).drop_last() == s.take(j - 1));
    if i < j - 1 {
        lemma_offset_increases(s, i, j - 1);
    }
}

/// A byte offset on a boundary belongs to one character index only.
pub proof fn lemma_char_pos(s: Seq<char>, k: int)
    requires
        0 <= k <= s.len(),
    ensures
        is_boundary(s, offset(s, k) as int),
        char_pos(s, offset(s, k) as int) == k,
{
    let p = char_pos(s, offset(s, k) as int);
    assert(0 <= p <= s.len() && offset(s, p) == offset(s, k));
    if p < k {
        lemma_offset_increases(s, p, k);
    } else if k < p {
        lemma_offset_increases(s, k, p);
    }
}

/// The ends of a text are boundaries.
pub proof fn lemma_boundary_ends(s: Seq<char>)
    ensures
        offset(s, 0) == 0,
        offset(s, s.len() as int) == byte_len(s),
        is_boundary(s, 0),
        is_boundary(s, byte_len(s) as int),
        char_pos(s, 0) == 0,
        char_pos(s, byte_len(s) as int) == s.len(),
{
    assert(s.take(0) == Seq::<char>::empty());
    assert(s.take(s.len() as int) == s);
    lemma_char_pos(s, 0);
    lemma_char_pos(s, s.len() as int);
}

/// A boundary lies within the text.
pub proof fn lemma_boundary_within(s: Seq<char>, b: int)
    requires
        is_boundary(s, b),
    ensures
        0 <= b <= byte_len(s),
{
    let k = char_pos(s, b);
    lemma_boundary_ends(s);
    if k < s.len() {
        lemma_offset_increases(s, k, s.len() as int);
    }
}

proof fn lemma_byte_len_push_front(c: char, s: Seq<char>)
    ensures
        byte_len(seq![c] + s) == utf8_width(c) + byte_len(s),
{
    lemma_byte_len_concat(seq![c], s);
    reveal_with_fuel(byte_len, 2);
    assert(seq![c].drop_last() == Seq::<char>::empty());
}

/// `byte_len` is the length of the UTF-8 encoding.
pub proof fn lemma_byte_len_is_encoding(s: Seq<char>)
    ensures
        byte_len(s) == encode_utf8(s).len(),
    decreases s.len(),
{
    if s.len() > 0 {
        lemma_byte_len_is_encoding(s.drop_first());
        lemma_byte_len_push_front(s[0], s.drop_first());
        assert(s == seq![s[0]] + s.drop_first());
        char_is_scalar(s[0]);
        assert(encode_scalar(s[0] as u32).len() == utf8_width(s[0]));
    }
}

/// The number of bytes that a text takes.
pub fn byte_length(s: &str) -> (r: usize)
    ensures
        r == byte_len(s@),
{
    proof {
        lemma_byte_len_is_encoding(s@);
    }
    s.as_bytes().len()
}

/// The number of bytes that a character takes.
pub fn char_width(c: char) -> (r: usize)
    ensures
        r == utf8_width(c),
        1 <= r <= 4,
{
    let v = c as u32;
    if v < 0x80 {
        1
    } else if v < 0x800 {
        2
    } else if v < 0x10000 {
        3
    } else {
        4
    }
}

/// The index of the character that begins at byte offset `b`.
pub fn char_index(chars: &Vec<char>, b: usize) -> (k: usize)
    requires
        is_boundary(chars@, b as int),
    ensures
        k <= chars@.len(),
        offset(chars@, k as int) == b,
        k == char_pos(chars@, b as int),
{
    let mut k: usize = 0;
    let mut at: usize = 0;
    let n = chars.len();
    let ghost p = char_pos(chars@, b as int);
    proof {
        lemma_boundary_ends(chars@);
    }
    while at < b
        invariant
            0 <= p <= n == chars@.len(),
            offset(chars@, p) == b,
            k <= p,
            at == offset(chars@, k as int),
        decreases p - k,
    {
        proof {
            if k == p {
                assert(false);
            }
            assert(chars@.take(k + 1).drop_last() == chars@.take(k as int));
            if k + 1 < p {
                lemma_offset_increases(chars@, k + 1, p);
            }
        }
        at = at + char_width(chars[k]);
        k = k + 1;
    }
    proof {
        if k < p {
            lemma_offset_increases(chars@, k as int, p);
        }
    }
    k
}

// ── White space ──────────────────────────────────────────────────────────────

/// The characters with the Unicode property `White_Space`.
pub open spec fn is_white(c: char) -> bool {
    let v = c as u32;
    ||| 0x09 <= v <= 0x0d
    ||| v == 0x20
    ||| v == 0x85
    ||| v == 0xa0
    ||| v == 0x1680
    ||| 0x2000 <= v <= 0x200a
    ||| v == 0x2028
    ||| v == 0x2029
    ||| v == 0x202f
    ||| v == 0x205f
    ||| v == 0x3000
}

/// Whether a character is white space.
pub fn is_whitespace(c: char) -> (r: bool)
    ensures
        r == is_white(c),
{
    let v = c as u32;
    (0x09 <= v && v <= 0x0d) || v == 0x20 || v == 0x85 || v == 0xa0 || v == 0x1680
        || (0x2000 <= v && v <= 0x200a) || v == 0x2028 || v == 0x2029 || v == 0x202f
        || v == 0x205f || v == 0x3000
}

/// A text without its leading white space.
pub open spec fn trim_start_of(s: Seq<char>) -> Seq<char>
    decreases s.len(),
{
    if s.len() > 0 && is_white(s[0]) {
        trim_start_of(s.drop_first())
    } else {
        s
    }
}

/// A text without its trailing white space.
pub open spec fn trim_end_of(s: Seq<char>) -> Seq<char>
    decreases s.len(),
{
    if s.len() > 0 && is_white(s.last()) {
        trim_end_of(s.drop_last())
    } else {
        s
    }
}

/// Trimming the end keeps the rest as it is.
pub proof fn lemma_trim_end_keeps(s: Seq<char>)
    ensures
        trim_end_of(s).is_prefix_of(s),
    decreases s.len(),
{
    if s.len() > 0 && is_white(s.last()) {
        lemma_trim_end_keeps(s.drop_last());
    }
}

/// A text without white space at its ends.
pub open spec fn trim_of(s: Seq<char>) -> Seq<char> {
    trim_start_of(trim_end_of(s))
}

/// Strips leading white space.
pub fn trim_start(s: &str) -> (r: String)
    ensures
        r@ == trim_start_of(s@),
{
    let chars = chars_of(s);
    let n = chars.len();
    let mut i: usize = 0;
    proof {
        assert(chars@.subrange(0, n as int) == chars@);
    }
    while i < n && is_whitespace(chars[i])
        invariant
            i <= n == chars@.len(),
            trim_start_of(chars@) == trim_start_of(chars@.subrange(i as int, n as int)),
        decreases n - i,
    {
        proof {
            let rest = chars@.subrange(i as int, n as int);
            assert(rest.drop_first() == chars@.subrange(i + 1, n as int));
        }
        i += 1;
    }
    string_of(&chars, i, n)
}

/// Strips trailing white space.
pub fn trim_end(s: &str) -> (r: String)
    ensures
        r@ == trim_end_of(s@),
{
    let chars = chars_of(s);
    let mut n = chars.len();
    proof {
        assert(chars@.take(n as int) == chars@);
    }
    while n > 0 && is_whitespace(chars[n - 1])
        invariant
            n <= chars@.len(),
            trim_end_of(chars@) == trim_end_of(chars@.take(n as int)),
        decreases n,
    {
        proof {
            assert(chars@.take(n as int).drop_last() == chars@.take(n - 1));
        }
        n -= 1;
    }
    proof {
        assert(chars@.take(n as int) == chars@.subrange(0, n as int));
    }
    string_of(&chars, 0, n)
}

/// Strips white space at both ends.
pub fn trim(s: &str) -> (r: String)
    ensures
        r@ == trim_of(s@),
{
    let t = trim_end(s);
    trim_start(t.as_str())
}

/// The words of a text: its longest runs without white space.
pub open spec fn words_of(s: Seq<char>) -> Seq<Seq<char>>
    decreases s.len(),
{
    if s.len() == 0 {
        Seq::empty()
    } else {
        let before = words_of(s.drop_last());
        if is_white(s.last()) {
            before
        } else if s.len() == 1 || is_white(s[s.len() - 2]) {
            before.push(seq![s.last()])
        } else {
            before.drop_last().push(before.last().push(s.last()))
        }
    }
}

/// Whether a text is a word: not empty, and without white space.
pub open spec fn is_word(s: Seq<char>) -> bool {
    s.len() > 0 && forall|i: int| 0 <= i < s.len() ==> !is_white(#[trigger] s[i])
}

/// The words of a text are words.
pub proof fn lemma_words_are_words(s: Seq<char>)
    ensures
        s.len() > 0 && !is_white(s.last()) ==> words_of(s).len() > 0,
        forall|i: int| 0 <= i < words_of(s).len() ==> is_word(#[trigger] words_of(s)[i]),
    decreases s.len(),
{
    if s.len() > 0 {
        let before = words_of(s.drop_last());
        lemma_words_are_words(s.drop_last());
        assert forall|i: int| 0 <= i < words_of(s).len() implies is_word(
            #[trigger] words_of(s)[i],
        ) by {
            if i < before.len() {
                assert(is_word(before[i]));
            }
        }
    }
}

/// A word is its only word.
pub proof fn lemma_word_alone(s: Seq<char>)
    requires
        is_word(s),
    ensures
        words_of(s) == seq![s],
    decreases s.len(),
{
    let head = s.drop_last();
    assert(!is_white(s[s.len() - 1]));
    if s.len() == 1 {
        assert(words_of(head) == Seq::<Seq<char>>::empty());
        assert(seq![s.last()] == s);
    } else {
        assert forall|i: int| 0 <= i < head.len() implies !is_white(#[trigger] head[i]) by {
            assert(head[i] == s[i]);
        }
        lemma_word_alone(head);
        assert(!is_white(s[s.len() - 2]));
        assert(head.push(s.last()) == s);
        assert(seq![head].drop_last().push(s) == seq![s]);
    }
}

/// White space parts the words before it from those behind it.
pub proof fn lemma_words_apart(a: Seq<char>, c: char, b: Seq<char>)
    requires
        is_white(c),
    ensures
        words_of(a.push(c) + b) == words_of(a) + words_of(b),
    decreases b.len(),
{
    let all = a.push(c) + b;
    if b.len() == 0 {
        assert(all == a.push(c));
        assert(all.drop_last() == a);
        assert(words_of(a) + Seq::<Seq<char>>::empty() == words_of(a));
    } else {
        let head = b.drop_last();
        lemma_words_apart(a, c, head);
        lemma_words_are_words(head);
        assert(all.drop_last() == a.push(c) + head);
        assert(all.last() == b.last());
        assert(all[all.len() - 2] == (if b.len() == 1 {
            c
        } else {
            b[b.len() - 2]
        }));
        let before = words_of(a) + words_of(head);
        if !is_white(b.last()) {
            if b.len() == 1 || is_white(b[b.len() - 2]) {
                assert(before.push(seq![b.last()]) == words_of(a) + words_of(b));
            } else {
                assert(head.last() == b[b.len() - 2]);
                let longer = words_of(head).last().push(b.last());
                assert(before.last() == words_of(head).last());
                assert(before.drop_last().push(longer) == words_of(a) + words_of(b));
            }
        }
    }
}

/// Splits a list of characters into words.
pub fn split_words(chars: &Vec<char>) -> (r: Vec<Vec<char>>)
    ensures
        pieces(r@) == words_of(chars@),
        forall|i: int| 0 <= i < r@.len() ==> (#[trigger] r@[i])@.len() > 0,
{
    let n = chars.len();
    let mut done: Vec<Vec<char>> = Vec::new();
    let mut open: Vec<char> = Vec::new();
    let mut i: usize = 0;
    proof {
        assert(pieces(done@) == words_of(chars@.take(0)));
    }
    while i < n
        invariant
            i <= n == chars@.len(),
            open@.len() > 0 <==> i > 0 && !is_white(chars@[i - 1]),
            words_of(chars@.take(i as int)) == (if open@.len() > 0 {
                pieces(done@).push(open@)
            } else {
                pieces(done@)
            }),
        decreases n - i,
    {
        let c = chars[i];
        proof {
            assert(chars@.take(i + 1).drop_last() == chars@.take(i as int));
            assert(pieces(done@).push(open@).drop_last() == pieces(done@));
        }
        if is_whitespace(c) {
            if open.len() > 0 {
                let ghost before = done@;
                let ghost word = open;
                done.push(open);
                open = Vec::new();
                proof {
                    assert(pieces(done@) == pieces(before).push(word@));
                }
            }
        } else {
            let ghost word = open@;
            open.push(c);
            proof {
                if word.len() == 0 {
                    assert(open@ == seq![c]);
                }
            }
        }
        i += 1;
    }
    proof {
        assert(chars@.take(n as int) == chars@);
    }
    if open.len() > 0 {
        let ghost before = done@;
        let ghost word = open;
        done.push(open);
        proof {
            assert(pieces(done@) == pieces(before).push(word@));
        }
    }
    proof {
        lemma_words_are_words(chars@);
        assert forall|i: int| 0 <= i < done@.len() implies (#[trigger] done@[i])@.len() > 0 by {
            assert(pieces(done@)[i] == done@[i]@);
        }
    }
    done
}

// ── Searching ────────────────────────────────────────────────────────────────

/// Whether a text begins with another.
pub fn starts_with(s: &str, prefix: &str) -> (r: bool)
    ensures
        r == prefix@.is_prefix_of(s@),
{
    let a = chars_of(s);
    let p = chars_of(prefix);
    let n = p.len();
    if a.len() < n {
        return false;
    }
    let mut i: usize = 0;
    while i < n
        invariant
            i <= n == p@.len() <= a@.len(),
            p@ == prefix@,
            a@ == s@,
            p@.take(i as int) == a@.take(i as int),
        decreases n - i,
    {
        if a[i] != p[i] {
            proof {
                assert(a@.subrange(0, n as int)[i as int] != p@[i as int]);
            }
            return false;
        }
        proof {
            assert(p@.take(i + 1) == p@.take(i as int).push(p@[i as int]));
            assert(a@.take(i + 1) == a@.take(i as int).push(a@[i as int]));
        }
        i += 1;
    }
    proof {
        assert(p@.take(n as int) == p@);
        assert(a@.take(n as int) == a@.subrange(0, n as int));
    }
    true
}

/// What follows a prefix, if the text begins with it.
pub fn strip_prefix(s: &str, prefix: &str) -> (r: Option<String>)
    ensures
        r is Some <==> prefix@.is_prefix_of(s@),
        r matches Some(rest) ==> rest@ == s@.skip(prefix@.len() as int) && s@ == prefix@ + rest@,
{
    if !starts_with(s, prefix) {
        return None;
    }
    let chars = chars_of(s);
    let n = chars_of(prefix).len();
    let rest = string_of(&chars, n, chars.len());
    proof {
        assert(rest@ == s@.skip(n as int));
        assert(s@.subrange(0, n as int) == prefix@);
        assert(s@ == prefix@ + rest@);
    }
    Some(rest)
}

/// Whether a character occurs in a text.
pub fn contains_char(s: &str, c: char) -> (r: bool)
    ensures
        r == s@.contains(c),
{
    let chars = chars_of(s);
    let n = chars.len();
    let mut i: usize = 0;
    while i < n
        invariant
            i <= n == chars@.len(),
            chars@ == s@,
            forall|j: int| 0 <= j < i ==> chars@[j] != c,
        decreases n - i,
    {
        if chars[i] == c {
            return true;
        }
        i += 1;
    }
    false
}

/// The index of the last occurrence of a character among the first `end` ones.
pub fn rfind(chars: &Vec<char>, end: usize, c: char) -> (r: Option<usize>)
    requires
        end <= chars@.len(),
    ensures
        r matches Some(i) ==> i < end && chars@[i as int] == c && !chars@.subrange(
            i + 1,
            end as int,
        ).contains(c),
        r is None ==> !chars@.take(end as int).contains(c),
{
    let mut i: usize = end;
    while i > 0
        invariant
            i <= end <= chars@.len(),
            forall|j: int| i <= j < end ==> chars@[j] != c,
        decreases i,
    {
        if chars[i - 1] == c {
            return Some(i - 1);
        }
        i -= 1;
    }
    None
}

/// The index of the first occurrence of a character.
pub fn find(chars: &Vec<char>, c: char) -> (r: Option<usize>)
    ensures
        r matches Some(i) ==> i < chars@.len() && chars@[i as int] == c && !chars@.take(
            i as int,
        ).contains(c),
        r is None ==> !chars@.contains(c),
{
    let n = chars.len();
    let mut i: usize = 0;
    while i < n
        invariant
            i <= n == chars@.len(),
            forall|j: int| 0 <= j < i ==> chars@[j] != c,
        decreases n - i,
    {
        if chars[i] == c {
            return Some(i);
        }
        i += 1;
    }
    None
}

// ── Line endings ─────────────────────────────────────────────────────────────

/// A text in which every line ending (CR LF, CR or LF) is the character `nl`.
pub open spec fn with_line_ends(s: Seq<char>, nl: char) -> Seq<char>
    decreases s.len(),
{
    if s.len() == 0 {
        s
    } else if s.last() == '\n' && s.len() >= 2 && s[s.len() - 2] == '\r' {
        with_line_ends(s.take(s.len() - 2), nl).push(nl)
    } else if s.last() == '\n' || s.last() == '\r' {
        with_line_ends(s.drop_last(), nl).push(nl)
    } else {
        with_line_ends(s.drop_last(), nl).push(s.last())
    }
}

/// A text without line ends.
pub open spec fn is_one_line(s: Seq<char>) -> bool {
    forall|i: int| 0 <= i < s.len() ==> #[trigger] s[i] != '\n' && s[i] != '\r'
}

/// No other line ending is left.
pub proof fn lemma_line_ends_replaced(s: Seq<char>, nl: char)
    ensures
        forall|i: int|
            0 <= i < with_line_ends(s, nl).len() ==> {
                let c = #[trigger] with_line_ends(s, nl)[i];
                c == nl || (c != '\n' && c != '\r')
            },
    decreases s.len(),
{
    if s.len() > 0 {
        let rest = if s.last() == '\n' && s.len() >= 2 && s[s.len() - 2] == '\r' {
            s.take(s.len() - 2)
        } else {
            s.drop_last()
        };
        lemma_line_ends_replaced(rest, nl);
        let w = with_line_ends(s, nl);
        let before = with_line_ends(rest, nl);
        assert(w == before.push(w.last()));
        assert forall|i: int| 0 <= i < w.len() implies {
            let c = #[trigger] w[i];
            c == nl || (c != '\n' && c != '\r')
        } by {
            if i < before.len() {
                assert(w[i] == before[i]);
            }
        }
    }
}

/// Makes every line ending the character `nl`.
pub fn replace_line_ends(s: &str, nl: char) -> (r: String)
    ensures
        r@ == with_line_ends(s@, nl),
{
    let chars = chars_of(s);
    let n = chars.len();
    let mut out = String::new();
    let mut i: usize = 0;
    proof {
        assert(chars@.take(0) == Seq::<char>::empty());
    }
    while i < n
        invariant
            i <= n == chars@.len(),
            chars@ == s@,
            out@ == with_line_ends(chars@.take(i as int), nl),
            0 < i < n && chars@[i - 1] == '\r' ==> chars@[i as int] != '\n',
        decreases n - i,
    {
        let c = chars[i];
        proof {
            assert(chars@.take(i + 1).drop_last() == chars@.take(i as int));
        }
        if c == '\r' && n - i >= 2 && chars[i + 1] == '\n' {
            proof {
                let t = chars@.take(i + 2);
                assert(t.last() == '\n' && t[t.len() - 2] == '\r');
                assert(t.take(t.len() - 2) == chars@.take(i as int));
            }
            out.push(nl);
            i += 2;
        } else if c == '\r' || c == '\n' {
            out.push(nl);
            i += 1;
        } else {
            out.push(c);
            i += 1;
        }
    }
    proof {
        assert(chars@.take(n as int) == chars@);
    }
    out
}

// ── Case ─────────────────────────────────────────────────────────────────────

/// The result of `str::to_lowercase` on a text.
pub uninterp spec fn lowercase_of(s: Seq<char>) -> Seq<char>;

/// A character with `A` to `Z` mapped to `a` to `z`.
pub open spec fn ascii_lower(c: char) -> char {
    if 'A' <= c <= 'Z' {
        ((c as u32) + 32) as char
    } else {
        c
    }
}

/// `str::to_lowercase`: the text with every character replaced by its Unicode
/// lower case. Of a text of ASCII characters only the letters `A` to `Z` change.
#[verifier::external_body]
fn to_lowercase(s: &str) -> (r: String)
    ensures
        r@ == lowercase_of(s@),
        is_ascii_text(s@) ==> r@ == s@.map_values(|c: char| ascii_lower(c)),
{
    s.to_lowercase()
}

/// A text in lower case: the letters `A` to `Z` of a text of ASCII characters,
/// every character of another.
pub open spec fn lower_of(s: Seq<char>) -> Seq<char> {
    if is_ascii_text(s) {
        s.map_values(|c: char| ascii_lower(c))
    } else {
        lowercase_of(s)
    }
}

/// A text in lower case.
pub fn lower(s: &str) -> (r: String)
    ensures
        r@ == lower_of(s@),
{
    to_lowercase(s)
}

/// Whether all characters of a text are ASCII.
pub open spec fn is_ascii_text(s: Seq<char>) -> bool {
    forall|i: int| 0 <= i < s.len() ==> (#[trigger] s[i] as u32) < 0x80
}

// ── Numbers ──────────────────────────────────────────────────────────────────

/// The character for a digit below ten.
pub open spec fn digit(d: nat) -> char {
    (48 + d) as char
}

/// The decimal digits of a number.
pub open spec fn decimal_of(n: nat) -> Seq<char>
    decreases n,
{
    if n < 10 {
        seq![digit(n)]
    } else {
        decimal_of(n / 10).push(digit(n % 10))
    }
}

/// Writes a number in decimal digits.
pub fn decimal(n: u64) -> (r: String)
    ensures
        r@ == decimal_of(n as nat),
    decreases n,
{
    let mut out = if n < 10 {
        String::new()
    } else {
        decimal(n / 10)
    };
    let d: u8 = (n % 10) as u8;
    out.push((48 + d) as char);
    proof {
        if n < 10 {
            assert(out@ == seq![digit(n as nat)]);
        }
    }
    out
}

// ── Splitting ────────────────────────────────────────────────────────────────

/// The pieces of a text between the occurrences of a separator.
pub open spec fn split_on(s: Seq<char>, sep: char) -> Seq<Seq<char>>
    decreases s.len(),
{
    if s.len() == 0 {
        seq![Seq::empty()]
    } else {
        let before = split_on(s.drop_last(), sep);
        if s.last() == sep {
            before.push(Seq::empty())
        } else {
            before.drop_last().push(before.last().push(s.last()))
        }
    }
}

pub proof fn lemma_split_nonempty(s: Seq<char>, sep: char)
    ensures
        split_on(s, sep).len() >= 1,
    decreases s.len(),
{
    if s.len() > 0 {
        lemma_split_nonempty(s.drop_last(), sep);
    }
}

/// Splits a list of characters at every separator.
pub fn split(chars: &Vec<char>, sep: char) -> (r: Vec<Vec<char>>)
    ensures
        pieces(r@) == split_on(chars@, sep),
        r@.len() >= 1,
{
    let n = chars.len();
    let mut done: Vec<Vec<char>> = Vec::new();
    let mut open: Vec<char> = Vec::new();
    let mut i: usize = 0;
    proof {
        assert(chars@.take(0) == Seq::<char>::empty());
        assert(pieces(done@).push(open@) == seq![Seq::<char>::empty()]);
    }
    while i < n
        invariant
            i <= n == chars@.len(),
            split_on(chars@.take(i as int), sep) == pieces(done@).push(open@),
        decreases n - i,
    {
        let c = chars[i];
        proof {
            assert(chars@.take(i + 1).drop_last() == chars@.take(i as int));
            assert(pieces(done@).push(open@).drop_last() == pieces(done@));
        }
        if c == sep {
            let ghost before = done@;
            let ghost piece = open;
            done.push(open);
            open = Vec::new();
            proof {
                assert(pieces(done@) == pieces(before).push(piece@));
                assert(open@ == Seq::<char>::empty());
            }
        } else {
            open.push(c);
        }
        i += 1;
    }
    proof {
        assert(chars@.take(n as int) == chars@);
    }
    let ghost before = done@;
    let ghost piece = open;
    done.push(open);
    proof {
        assert(pieces(done@) == pieces(before).push(piece@));
    }
    done
}

/// A text without a carriage return at its end.
pub open spec fn without_cr(s: Seq<char>) -> Seq<char> {
    if s.len() > 0 && s.last() == '\r' {
        s.drop_last()
    } else {
        s
    }
}

/// The lines of a text as a reader counts them: each ends in LF or CR LF, and
/// the end of the last one is optional.
pub open spec fn text_lines_of(s: Seq<char>) -> Seq<Seq<char>> {
    let p = split_on(s, '\n');
    let n = if p.last().len() == 0 {
        (p.len() - 1) as nat
    } else {
        p.len()
    };
    Seq::new(
        n,
        |i: int|
            if i < p.len() - 1 {
                without_cr(p[i])
            } else {
                p[i]
            },
    )
}

/// Splits a text into lines as a reader counts them.
pub fn text_lines(s: &str) -> (r: Vec<String>)
    ensures
        texts(r@) == text_lines_of(s@),
{
    let chars = chars_of(s);
    let parts = split(&chars, '\n');
    let total = parts.len();
    let ghost p = split_on(s@, '\n');
    proof {
        assert forall|i: int| 0 <= i < total implies #[trigger] p[i] == parts@[i]@ by {
            assert(pieces(parts@)[i] == parts@[i]@);
        }
    }
    let n = if parts[total - 1].len() == 0 {
        total - 1
    } else {
        total
    };
    let mut out: Vec<String> = Vec::new();
    let mut i: usize = 0;
    while i < n
        invariant
            i <= n <= total == parts@.len() == p.len(),
            forall|i: int| 0 <= i < total ==> #[trigger] p[i] == parts@[i]@,
            out@.len() == i,
            forall|j: int|
                0 <= j < i ==> (#[trigger] out@[j])@ == (if j < total - 1 {
                    without_cr(p[j])
                } else {
                    p[j]
                }),
        decreases n - i,
    {
        let line = &parts[i];
        let len = line.len();
        proof {
            assert(p[i as int] == line@);
            assert(line@.subrange(0, len as int) == line@);
            if len > 0 {
                assert(line@.subrange(0, len - 1) == line@.drop_last());
            }
        }
        if i < total - 1 && len > 0 && line[len - 1] == '\r' {
            out.push(string_of(line, 0, len - 1));
        } else {
            out.push(string_of(line, 0, len));
        }
        i += 1;
    }
    proof {
        assert(texts(out@) == text_lines_of(s@));
    }
    out
}

/// A list of texts put together with a separator between each two.
pub open spec fn join_of(parts: Seq<Seq<char>>, sep: Seq<char>) -> Seq<char>
    decreases parts.len(),
{
    if parts.len() == 0 {
        Seq::empty()
    } else if parts.len() == 1 {
        parts[0]
    } else {
        join_of(parts.drop_last(), sep) + sep + parts.last()
    }
}

/// A further part stands behind a separator.
pub proof fn lemma_join_push(parts: Seq<Seq<char>>, last: Seq<char>, sep: Seq<char>)
    ensures
        join_of(parts.push(last), sep) == (if parts.len() == 0 {
            last
        } else {
            join_of(parts, sep) + sep + last
        }),
{
    reveal_with_fuel(join_of, 2);
    assert(parts.push(last).drop_last() == parts);
}

/// Parts between separators do not hold the separator.
pub proof fn lemma_split_parts(s: Seq<char>, sep: char)
    ensures
        forall|i: int|
            0 <= i < split_on(s, sep).len() ==> !(#[trigger] split_on(s, sep)[i]).contains(sep),
    decreases s.len(),
{
    if s.len() > 0 {
        let before = split_on(s.drop_last(), sep);
        lemma_split_parts(s.drop_last(), sep);
        lemma_split_nonempty(s.drop_last(), sep);
        assert(!before.last().contains(sep));
        assert forall|i: int| 0 <= i < split_on(s, sep).len() implies !(#[trigger] split_on(
            s,
            sep,
        )[i]).contains(sep) by {
            if s.last() != sep && i == before.len() - 1 {
                let part = before.last().push(s.last());
                assert(split_on(s, sep)[i] == part);
                if part.contains(sep) {
                    let j = choose|j: int| 0 <= j < part.len() && part[j] == sep;
                    assert(before.last()[j] == sep);
                }
            } else if i < before.len() {
                assert(split_on(s, sep)[i] == before[i]);
            }
        }
    }
}

proof fn lemma_split_behind(s: Seq<char>, part: Seq<char>, sep: char)
    requires
        !part.contains(sep),
    ensures
        split_on(s.push(sep) + part, sep) == split_on(s, sep).push(part),
    decreases part.len(),
{
    let all = s.push(sep) + part;
    if part.len() == 0 {
        assert(part == Seq::<char>::empty());
        assert(all == s.push(sep));
        assert(all.drop_last() == s);
    } else {
        let head = part.drop_last();
        assert(part[part.len() - 1] == part.last());
        assert(all.last() == part.last());
        if head.contains(sep) {
            let j = choose|j: int| 0 <= j < head.len() && head[j] == sep;
            assert(part[j] == sep);
        }
        lemma_split_behind(s, head, sep);
        assert(all.drop_last() == s.push(sep) + head);
        assert(split_on(s, sep).push(head).drop_last() == split_on(s, sep));
        assert(head.push(part.last()) == part);
    }
}

/// A text without the separator is its only part.
pub proof fn lemma_split_one(part: Seq<char>, sep: char)
    requires
        !part.contains(sep),
    ensures
        split_on(part, sep) == seq![part],
    decreases part.len(),
{
    if part.len() > 0 {
        let head = part.drop_last();
        assert(part[part.len() - 1] == part.last());
        if head.contains(sep) {
            let j = choose|j: int| 0 <= j < head.len() && head[j] == sep;
            assert(part[j] == sep);
        }
        lemma_split_one(head, sep);
        assert(head.push(part.last()) == part);
        assert(seq![head].drop_last().push(part) == seq![part]);
    } else {
        assert(part == Seq::<char>::empty());
    }
}

/// A separator parts a text: the parts of two texts with a separator between them
/// are those of the first and then those of the second.
pub proof fn lemma_split_both(a: Seq<char>, b: Seq<char>, sep: char)
    ensures
        split_on(a.push(sep) + b, sep) == split_on(a, sep) + split_on(b, sep),
    decreases b.len(),
{
    let all = a.push(sep) + b;
    if b.len() == 0 {
        assert(b == Seq::<char>::empty());
        assert(all == a.push(sep));
        assert(all.drop_last() == a);
        assert(split_on(a, sep).push(Seq::<char>::empty()) == split_on(a, sep) + split_on(b, sep));
    } else {
        let r = b.drop_last();
        lemma_split_both(a, r, sep);
        lemma_split_nonempty(r, sep);
        assert(all.drop_last() == a.push(sep) + r);
        assert(all.last() == b.last());
        let before = split_on(r, sep);
        if b.last() == sep {
            assert((split_on(a, sep) + before).push(Seq::<char>::empty()) == split_on(a, sep)
                + before.push(Seq::<char>::empty()));
        } else {
            let longer = before.last().push(b.last());
            assert((split_on(a, sep) + before).last() == before.last());
            assert((split_on(a, sep) + before).drop_last().push(longer) == split_on(a, sep)
                + before.drop_last().push(longer));
        }
    }
}

/// Parts that were joined by a separator that they do not hold are found again.
pub proof fn lemma_split_joined(parts: Seq<Seq<char>>, sep: char)
    requires
        parts.len() > 0,
        forall|i: int| 0 <= i < parts.len() ==> !(#[trigger] parts[i]).contains(sep),
    ensures
        split_on(join_of(parts, seq![sep]), sep) == parts,
    decreases parts.len(),
{
    if parts.len() == 1 {
        lemma_split_one(parts[0], sep);
        assert(seq![parts[0]] == parts);
    } else {
        let rest = parts.drop_last();
        assert(!parts[parts.len() - 1].contains(sep));
        assert forall|i: int| 0 <= i < rest.len() implies !(#[trigger] rest[i]).contains(sep) by {
            assert(rest[i] == parts[i]);
        }
        lemma_split_joined(rest, sep);
        let before = join_of(rest, seq![sep]);
        lemma_split_behind(before, parts.last(), sep);
        assert(before + seq![sep] + parts.last() == before.push(sep) + parts.last());
        assert(rest.push(parts.last()) == parts);
    }
}

/// The parts between separators, with separators between them, are the text.
pub proof fn lemma_join_split(s: Seq<char>, sep: char)
    ensures
        join_of(split_on(s, sep), seq![sep]) == s,
    decreases s.len(),
{
    lemma_split_nonempty(s, sep);
    if s.len() > 0 {
        let t = s.drop_last();
        let before = split_on(t, sep);
        lemma_join_split(t, sep);
        lemma_split_nonempty(t, sep);
        assert(t.push(s.last()) == s);
        if s.last() == sep {
            lemma_join_push(before, Seq::empty(), seq![sep]);
            assert(t + seq![sep] + Seq::<char>::empty() == s);
        } else {
            let longer = before.last().push(s.last());
            assert(before.drop_last().push(before.last()) == before);
            lemma_join_push(before.drop_last(), before.last(), seq![sep]);
            lemma_join_push(before.drop_last(), longer, seq![sep]);
            if before.len() > 1 {
                let head = join_of(before.drop_last(), seq![sep]) + seq![sep];
                assert(head + longer == (head + before.last()).push(s.last()));
            }
        }
    }
}

/// Puts strings together with a separator between each two.
pub fn join(parts: &Vec<String>, sep: &str) -> (r: String)
    ensures
        r@ == join_of(texts(parts@), sep@),
{
    let n = parts.len();
    let mut out = String::new();
    let mut i: usize = 0;
    let ghost all = texts(parts@);
    while i < n
        invariant
            i <= n == parts@.len(),
            all == texts(parts@),
            out@ == join_of(all.take(i as int), sep@),
        decreases n - i,
    {
        proof {
            assert(all.take(i + 1).drop_last() == all.take(i as int));
            assert(all.take(i + 1).last() == parts@[i as int]@);
        }
        if i > 0 {
            out.append(sep);
        }
        let ghost head = out@;
        out.append(parts[i].as_str());
        proof {
            if i == 0 {
                assert(head + parts@[0]@ == all.take(1)[0]);
            }
        }
        i += 1;
    }
    proof {
        assert(all.take(n as int) == all);
    }
    out
}

// ── Laws ─────────────────────────────────────────────────────────────────────

/// A text with no line feed is its only line.
pub proof fn law_one_line(s: Seq<char>)
    requires
        s.len() > 0,
        !s.contains('\n'),
    ensures
        text_lines_of(s) == seq![s],
{
    lemma_split_one(s, '\n');
}

proof fn lemma_split_head(line: Seq<char>, rest: Seq<char>, sep: char)
    requires
        !line.contains(sep),
    ensures
        split_on(line.push(sep) + rest, sep) == seq![line] + split_on(rest, sep),
    decreases rest.len(),
{
    let all = line.push(sep) + rest;
    lemma_split_nonempty(rest, sep);
    if rest.len() == 0 {
        assert(all == line.push(sep));
        assert(all.drop_last() == line);
        lemma_split_one(line, sep);
        assert(rest == Seq::<char>::empty());
        assert(seq![line].push(Seq::<char>::empty()) == seq![line] + split_on(rest, sep));
    } else {
        let r = rest.drop_last();
        lemma_split_head(line, r, sep);
        lemma_split_nonempty(r, sep);
        assert(all.drop_last() == line.push(sep) + r);
        assert(all.last() == rest.last());
        let before = split_on(r, sep);
        if rest.last() == sep {
            assert((seq![line] + before).push(Seq::<char>::empty()) == seq![line] + before.push(
                Seq::<char>::empty(),
            ));
        } else {
            let longer = before.last().push(rest.last());
            assert((seq![line] + before).last() == before.last());
            assert((seq![line] + before).drop_last().push(longer) == seq![line]
                + before.drop_last().push(longer));
        }
    }
}

/// The first line of a text stands before its first line feed, without a carriage
/// return at its end; the other lines are those of the rest.
pub proof fn law_line_and_rest(line: Seq<char>, rest: Seq<char>)
    requires
        !line.contains('\n'),
    ensures
        text_lines_of(line.push('\n') + rest) == seq![
            if line.len() > 0 && line.last() == '\r' {
                line.drop_last()
            } else {
                line
            },
        ] + text_lines_of(rest),
        text_lines_of(Seq::<char>::empty()).len() == 0,
{
    lemma_split_head(line, rest, '\n');
    lemma_split_nonempty(rest, '\n');
    let all = line.push('\n') + rest;
    let p = split_on(rest, '\n');
    assert(split_on(all, '\n').last() == p.last());
    let first = if line.len() > 0 && line.last() == '\r' {
        line.drop_last()
    } else {
        line
    };
    let a = text_lines_of(all);
    let b = seq![first] + text_lines_of(rest);
    assert(a.len() == b.len());
    assert forall|i: int| 0 <= i < a.len() implies a[i] == b[i] by {
        if i > 0 {
            assert(split_on(all, '\n')[i] == p[i - 1]);
        }
    }
    assert(a == b);
}

proof fn lemma_trim_end_parts(s: Seq<char>)
    ensures
        trim_end_of(s).is_prefix_of(s),
        forall|i: int| trim_end_of(s).len() <= i < s.len() ==> is_white(#[trigger] s[i]),
        trim_end_of(s).len() > 0 ==> !is_white(trim_end_of(s).last()),
    decreases s.len(),
{
    if s.len() > 0 && is_white(s.last()) {
        lemma_trim_end_parts(s.drop_last());
        assert forall|i: int| trim_end_of(s).len() <= i < s.len() implies is_white(
            #[trigger] s[i],
        ) by {
            if i < s.len() - 1 {
                assert(s.drop_last()[i] == s[i]);
            }
        }
    }
}

proof fn lemma_trim_start_parts(s: Seq<char>)
    ensures
        trim_start_of(s).len() <= s.len(),
        trim_start_of(s) == s.skip(s.len() - trim_start_of(s).len()),
        forall|i: int| 0 <= i < s.len() - trim_start_of(s).len() ==> is_white(#[trigger] s[i]),
        trim_start_of(s).len() > 0 ==> !is_white(trim_start_of(s)[0]),
    decreases s.len(),
{
    if s.len() > 0 && is_white(s[0]) {
        let rest = s.drop_first();
        lemma_trim_start_parts(rest);
        let n = trim_start_of(s).len();
        assert(rest.skip(rest.len() - n) == s.skip(s.len() - n));
        assert forall|i: int| 0 <= i < s.len() - n implies is_white(#[trigger] s[i]) by {
            if i > 0 {
                assert(rest[i - 1] == s[i]);
            }
        }
    } else {
        assert(s.skip(0) == s);
    }
}

/// Trimming takes white space off the ends, all of it and nothing else: what is left
/// stands in the text between white space, and neither begins nor ends with any.
pub proof fn law_trimming_takes_white_space_off(s: Seq<char>)
    ensures
        ({
            let start = s.len() - trim_start_of(s).len();
            &&& 0 <= start
            &&& s.skip(start) == trim_start_of(s)
            &&& forall|i: int| 0 <= i < start ==> is_white(#[trigger] s[i])
            &&& trim_start_of(s).len() > 0 ==> !is_white(trim_start_of(s)[0])
        }),
        ({
            let end = trim_end_of(s).len();
            &&& end <= s.len()
            &&& s.take(end as int) == trim_end_of(s)
            &&& forall|i: int| end <= i < s.len() ==> is_white(#[trigger] s[i])
            &&& end > 0 ==> !is_white(trim_end_of(s).last())
        }),
        trim_of(s) == trim_start_of(trim_end_of(s)),
        trim_of(s).len() > 0 ==> !is_white(trim_of(s)[0]) && !is_white(trim_of(s).last()),
{
    lemma_trim_end_parts(s);
    lemma_trim_start_parts(s);
    let t = trim_end_of(s);
    lemma_trim_start_parts(t);
    assert(s.take(t.len() as int) == t);
    if trim_of(s).len() > 0 {
        assert(trim_of(s).last() == t.last());
    }
}

/// A text of white space alone trims to nothing; any other does not.
pub proof fn law_blank_text_trims_to_nothing(s: Seq<char>)
    ensures
        (exists|i: int| 0 <= i < s.len() && !is_white(#[trigger] s[i])) <==> trim_of(s).len() > 0,
        (forall|i: int| 0 <= i < s.len() ==> is_white(#[trigger] s[i])) <==> trim_of(s).len() == 0,
{
    let t = trim_end_of(s);
    lemma_trim_end_parts(s);
    lemma_trim_start_parts(t);
    if t.len() > 0 {
        assert(s[t.len() - 1] == t.last());
        if trim_of(s).len() == 0 {
            assert(is_white(t[t.len() - 1]));
        }
    }
}

/// The number that decimal digits stand for.
pub open spec fn decimal_value(s: Seq<char>) -> int
    decreases s.len(),
{
    if s.len() == 0 {
        0
    } else {
        decimal_value(s.drop_last()) * 10 + (s.last() as int - 48)
    }
}

/// A number is written in decimal digits that stand for it, the first of which is no
/// zero, unless the number is.
pub proof fn law_decimal_digits_read_back(n: nat)
    ensures
        decimal_value(decimal_of(n)) == n,
        decimal_of(n).len() > 0,
        n > 0 ==> decimal_of(n)[0] != '0',
        forall|i: int| 0 <= i < decimal_of(n).len() ==> '0' <= #[trigger] decimal_of(n)[i] <= '9',
    decreases n,
{
    reveal_with_fuel(decimal_value, 2);
    let d = decimal_of(n);
    if n < 10 {
        assert(d.drop_last() == Seq::<char>::empty());
        assert(d.last() == digit(n));
    } else {
        let rest = decimal_of(n / 10);
        law_decimal_digits_read_back(n / 10);
        assert(d.drop_last() == rest);
        assert(d[0] == rest[0]);
        assert forall|i: int| 0 <= i < d.len() implies '0' <= #[trigger] d[i] <= '9' by {
            if i < rest.len() {
                assert(d[i] == rest[i]);
            }
        }
    }
}

/// Line ends are replaced one for one: a line feed, a carriage return, and both together
/// count as one; every other character stays. So the texts around a line end, and two
/// texts that no line end bridges, are replaced each on its own.
pub proof fn law_line_ends_are_replaced(a: Seq<char>, b: Seq<char>, c: char, nl: char)
    requires
        !(a.len() > 0 && a.last() == '\r' && b.len() > 0 && b[0] == '\n'),
    ensures
        with_line_ends(a + b, nl) == with_line_ends(a, nl) + with_line_ends(b, nl),
        with_line_ends(seq!['\r', '\n'], nl) == seq![nl],
        with_line_ends(seq!['\n'], nl) == seq![nl],
        with_line_ends(seq!['\r'], nl) == seq![nl],
        c != '\n' && c != '\r' ==> with_line_ends(seq![c], nl) == seq![c],
        with_line_ends(Seq::<char>::empty(), nl).len() == 0,
    decreases b.len(),
{
    reveal_with_fuel(with_line_ends, 2);
    let none = Seq::<char>::empty();
    assert(seq!['\r', '\n'].take(0) == none);
    assert(seq!['\n'].drop_last() == none);
    assert(seq!['\r'].drop_last() == none);
    assert(seq![c].drop_last() == none);
    let s = a + b;
    if b.len() == 0 {
        assert(s == a);
        assert(with_line_ends(b, nl) == none);
        assert(with_line_ends(a, nl) + none == with_line_ends(a, nl));
    } else if b.len() >= 2 && b.last() == '\n' && b[b.len() - 2] == '\r' {
        let t = b.take(b.len() - 2);
        assert(s.take(s.len() - 2) == a + t);
        assert(s[s.len() - 2] == b[b.len() - 2]);
        law_line_ends_are_replaced(a, t, c, nl);
    } else {
        let t = b.drop_last();
        assert(s.drop_last() == a + t);
        if t.len() > 0 {
            assert(s[s.len() - 2] == b[b.len() - 2]);
        } else if a.len() > 0 {
            assert(s[s.len() - 2] == a.last());
        }
        law_line_ends_are_replaced(a, t, c, nl);
    }
}

/// Of a text of ASCII characters only the capital letters change in lower case, each to
/// its small one.
pub proof fn law_lower_case_changes_capitals(s: Seq<char>, i: int)
    requires
        is_ascii_text(s),
        0 <= i < s.len(),
    ensures
        lower_of(s).len() == s.len(),
        'A' <= s[i] <= 'Z' ==> lower_of(s)[i] as u32 == s[i] as u32 + 32,
        !('A' <= s[i] <= 'Z') ==> lower_of(s)[i] == s[i],
{
}

/// Joining puts the separator between each two parts and nothing else; parts of parts may
/// be joined first.
pub proof fn law_joining_puts_separators_between(
    a: Seq<Seq<char>>,
    b: Seq<Seq<char>>,
    sep: Seq<char>,
)
    requires
        a.len() > 0,
        b.len() > 0,
    ensures
        join_of(a + b, sep) == join_of(a, sep) + sep + join_of(b, sep),
        join_of(seq![a[0]], sep) == a[0],
        join_of(Seq::<Seq<char>>::empty(), sep).len() == 0,
    decreases b.len(),
{
    if b.len() == 1 {
        assert(a + b == a.push(b[0]));
        lemma_join_push(a, b[0], sep);
    } else {
        let t = b.drop_last();
        law_joining_puts_separators_between(a, t, sep);
        assert(a + b == (a + t).push(b.last()));
        lemma_join_push(a + t, b.last(), sep);
        assert(t.push(b.last()) == b);
        lemma_join_push(t, b.last(), sep);
        assert(join_of(a, sep) + sep + join_of(t, sep) + sep + b.last() == join_of(a, sep) + sep + (
        join_of(t, sep) + sep + b.last()));
    }
}

/// White space is the tab, the line ends, the form feed and the space, and beyond ASCII
/// the spaces and separators of Unicode.
pub proof fn law_white_space_is_what_unicode_says(c: char)
    ensures
        (c as u32) < 0x80 ==> (is_white(c) <==> c == '\t' || c == '\n' || c == '\u{b}' || c
            == '\u{c}' || c == '\r' || c == ' '),
        (c as u32) >= 0x80 && !('\u{2000}' <= c <= '\u{200a}') ==> (is_white(c) <==> c == '\u{85}'
            || c == '\u{a0}' || c == '\u{1680}' || c == '\u{2028}' || c == '\u{2029}' || c
            == '\u{202f}' || c == '\u{205f}' || c == '\u{3000}'),
        '\u{2000}' <= c <= '\u{200a}' ==> is_white(c),
{
}

} // verus!
