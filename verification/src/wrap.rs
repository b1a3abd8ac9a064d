//! Texts made to fit a number of columns, one for each character.

use vstd::prelude::*;

use crate::text::{
    chars_of, is_word, join_of, lemma_join_push, lemma_join_split, lemma_split_joined,
    lemma_split_nonempty, lemma_split_parts, lemma_word_alone, lemma_words_apart,
    lemma_words_are_words, pieces, split, split_on, split_words, string_of, string_of_all, texts,
    words_of,
};

verus! {

// ── Truncation ───────────────────────────────────────────────────────────────

/// A text that is too wide is cut and ends in an ellipsis.
pub open spec fn truncated(s: Seq<char>, width: nat) -> Seq<char> {
    if s.len() <= width {
        s
    } else if width == 0 {
        seq!['…']
    } else {
        s.take(width - 1).push('…')
    }
}

/// Cuts a text that is too wide.
pub fn truncate(s: &str, width: usize) -> (r: String)
    ensures
        r@ == truncated(s@, width as nat),
{
    let chars = chars_of(s);
    if chars.len() <= width {
        return s.to_owned();
    }
    let keep = if width == 0 {
        0
    } else {
        width - 1
    };
    let mut out = string_of(&chars, 0, keep);
    out.push('…');
    proof {
        assert(s@.subrange(0, keep as int) == s@.take(keep as int));
        assert(s@.take(0).push('…') == seq!['…']);
    }
    out
}

/// A truncated text fits, and is as it was if it did.
pub proof fn law_truncated_text_fits(s: Seq<char>, width: nat)
    requires
        width >= 1,
    ensures
        truncated(s, width).len() <= width,
        s.len() <= width ==> truncated(s, width) == s,
        truncated(s, width).drop_last().is_prefix_of(s) || truncated(s, width) == s,
{
    if s.len() > width {
        assert(truncated(s, width).drop_last() == s.take(width - 1));
    }
}

// ── Centering ────────────────────────────────────────────────────────────────

/// A character a number of times.
pub open spec fn repeated(c: char, n: nat) -> Seq<char> {
    Seq::new(n, |i: int| c)
}

/// A text in the middle of a number of columns, with a character around it; the
/// odd column goes behind it.
pub open spec fn centered(s: Seq<char>, width: nat, fill: char) -> Seq<char> {
    if s.len() >= width {
        s
    } else {
        let space = (width - s.len()) as nat;
        repeated(fill, space / 2) + s + repeated(fill, (space - space / 2) as nat)
    }
}

fn push_repeated(out: &mut String, c: char, n: usize)
    ensures
        final(out)@ == old(out)@ + repeated(c, n as nat),
{
    let mut i: usize = 0;
    while i < n
        invariant
            i <= n,
            out@ == old(out)@ + repeated(c, i as nat),
        decreases n - i,
    {
        out.push(c);
        i += 1;
        proof {
            assert(out@ == old(out)@ + repeated(c, i as nat));
        }
    }
}

/// Puts a text in the middle of a number of columns.
pub fn center(s: &str, width: usize, fill: char) -> (r: String)
    ensures
        r@ == centered(s@, width as nat, fill),
{
    let len = chars_of(s).len();
    if len >= width {
        return s.to_owned();
    }
    let space = width - len;
    let left = space / 2;
    let mut out = String::new();
    push_repeated(&mut out, fill, left);
    out.append(s);
    push_repeated(&mut out, fill, space - left);
    proof {
        assert(out@ == centered(s@, width as nat, fill));
    }
    out
}

// ── Word wrap ────────────────────────────────────────────────────────────────

/// Words put on lines of at most `width` characters where they fit; a word that
/// is too long has a line of its own.
pub open spec fn wrapped(words: Seq<Seq<char>>, width: nat) -> Seq<Seq<char>>
    decreases words.len(),
{
    if words.len() == 0 {
        seq![Seq::empty()]
    } else {
        let before = wrapped(words.drop_last(), width);
        let line = before.last();
        let word = words.last();
        if line.len() == 0 {
            before.drop_last().push(word)
        } else if line.len() + 1 + word.len() <= width {
            before.drop_last().push(line.push(' ') + word)
        } else {
            before.push(word)
        }
    }
}

/// A paragraph on lines of at most `width` characters; one that fits is as it
/// was.
pub open spec fn paragraph_lines(s: Seq<char>, width: nat) -> Seq<Seq<char>> {
    if s.len() <= width {
        seq![s]
    } else {
        wrapped(words_of(s), width)
    }
}

/// The lines of all paragraphs.
pub open spec fn all_lines(paragraphs: Seq<Seq<char>>, width: nat) -> Seq<Seq<char>>
    decreases paragraphs.len(),
{
    if paragraphs.len() == 0 {
        Seq::empty()
    } else {
        all_lines(paragraphs.drop_last(), width) + paragraph_lines(paragraphs.last(), width)
    }
}

/// A text on lines of at most `width` characters; no width, no wrapping.
pub open spec fn wrap_of(s: Seq<char>, width: nat) -> Seq<Seq<char>> {
    if width == 0 {
        seq![s]
    } else {
        all_lines(split_on(s, '\n'), width)
    }
}

proof fn lemma_wrapped_nonempty(words: Seq<Seq<char>>, width: nat)
    ensures
        wrapped(words, width).len() >= 1,
    decreases words.len(),
{
    if words.len() > 0 {
        lemma_wrapped_nonempty(words.drop_last(), width);
    }
}

/// A text has at least one line.
pub proof fn lemma_wrap_nonempty(s: Seq<char>, width: nat)
    ensures
        wrap_of(s, width).len() >= 1,
{
    lemma_split_nonempty(s, '\n');
    let parts = split_on(s, '\n');
    lemma_wrapped_nonempty(words_of(parts.last()), width);
}

fn wrap_words(out: &mut Vec<String>, words: &Vec<Vec<char>>, width: usize)
    ensures
        texts(final(out)@) == texts(old(out)@) + wrapped(pieces(words@), width as nat),
{
    let n = words.len();
    let ghost w = pieces(words@);
    let ghost first = texts(out@);
    let mut line: Vec<char> = Vec::new();
    let mut i: usize = 0;
    proof {
        assert(w.take(0) == Seq::<Seq<char>>::empty());
        assert(wrapped(w.take(0), width as nat).drop_last() == Seq::<Seq<char>>::empty());
        assert(line@ == wrapped(w.take(0), width as nat).last());
        assert(first + Seq::<Seq<char>>::empty() == first);
    }
    while i < n
        invariant
            i <= n == words@.len(),
            w == pieces(words@),
            first == texts(old(out)@),
            wrapped(w.take(i as int), width as nat).len() >= 1,
            texts(out@) == first + wrapped(w.take(i as int), width as nat).drop_last(),
            line@ == wrapped(w.take(i as int), width as nat).last(),
        decreases n - i,
    {
        let ghost before = wrapped(w.take(i as int), width as nat);
        proof {
            assert(w.take(i + 1).drop_last() == w.take(i as int));
            assert(w[i as int] == words@[i as int]@);
            lemma_wrapped_nonempty(w.take(i + 1), width as nat);
        }
        let word = string_of_all(&words[i]);
        let len = words[i].len();
        if line.len() == 0 {
            line = chars_of(word.as_str());
            proof {
                assert(before.drop_last().push(w[i as int]).drop_last() == before.drop_last());
            }
        } else if len < width && line.len() <= width - 1 - len {
            line.push(' ');
            let mut rest = chars_of(word.as_str());
            line.append(&mut rest);
            proof {
                assert(before.drop_last().push(line@).drop_last() == before.drop_last());
            }
        } else {
            let full = string_of_all(&line);
            let ghost sofar = out@;
            out.push(full);
            line = chars_of(word.as_str());
            proof {
                assert(texts(out@) == texts(sofar).push(before.last()));
                assert(before.drop_last().push(before.last()) == before);
                assert(before.push(w[i as int]).drop_last() == before);
                assert(first + before == (first + before.drop_last()).push(before.last()));
            }
        }
        i += 1;
    }
    let last = string_of_all(&line);
    let ghost sofar = out@;
    out.push(last);
    proof {
        let all = wrapped(w, width as nat);
        assert(w.take(n as int) == w);
        assert(texts(out@) == texts(sofar).push(all.last()));
        assert((first + all.drop_last()).push(all.last()) == first + all);
    }
}

/// Puts a text on lines of at most `max_width` characters, broken between words;
/// a word that is too long is left as it is, on a line of its own.
pub fn word_wrap(text: &str, max_width: usize) -> (r: Vec<String>)
    ensures
        texts(r@) == wrap_of(text@, max_width as nat),
{
    let mut out: Vec<String> = Vec::new();
    if max_width == 0 {
        out.push(text.to_owned());
        proof {
            assert(texts(out@) == seq![text@]);
        }
        return out;
    }
    let paragraphs = split(&chars_of(text), '\n');
    let n = paragraphs.len();
    let ghost p = pieces(paragraphs@);
    let mut i: usize = 0;
    proof {
        assert(texts(out@) == all_lines(p.take(0), max_width as nat));
    }
    while i < n
        invariant
            i <= n == paragraphs@.len(),
            p == pieces(paragraphs@),
            texts(out@) == all_lines(p.take(i as int), max_width as nat),
        decreases n - i,
    {
        proof {
            assert(p.take(i + 1).drop_last() == p.take(i as int));
            assert(p[i as int] == paragraphs@[i as int]@);
        }
        if paragraphs[i].len() <= max_width {
            let ghost before = out@;
            let line = string_of_all(&paragraphs[i]);
            out.push(line);
            proof {
                assert(texts(out@) == texts(before) + seq![p[i as int]]);
            }
        } else {
            let words = split_words(&paragraphs[i]);
            wrap_words(&mut out, &words, max_width);
        }
        i += 1;
    }
    proof {
        assert(p.take(n as int) == p);
    }
    out
}

// ── What wrapping keeps ──────────────────────────────────────────────────────

/// A line is no wider than asked for, or a single word.
pub proof fn law_wrapped_lines_fit(words: Seq<Seq<char>>, width: nat, i: int)
    requires
        0 <= i < wrapped(words, width).len(),
    ensures
        wrapped(words, width)[i].len() <= width || words.contains(wrapped(words, width)[i]),
    decreases words.len(),
{
    if words.len() > 0 {
        let rest = words.drop_last();
        let before = wrapped(rest, width);
        lemma_wrapped_nonempty(rest, width);
        assert(words.last() == words[words.len() - 1]);
        if i < before.len() {
            law_wrapped_lines_fit(rest, width, i);
            if rest.contains(before[i]) {
                let j = rest.index_of(before[i]);
                assert(words[j] == before[i]);
            }
        }
    }
}

/// Wrapping keeps the words: the lines with single spaces between them are the
/// words with single spaces between them.
pub proof fn law_wrapping_keeps_words(words: Seq<Seq<char>>, width: nat)
    requires
        forall|i: int| 0 <= i < words.len() ==> (#[trigger] words[i]).len() > 0,
    ensures
        words.len() > 0 ==> join_of(wrapped(words, width), " "@) == join_of(words, " "@),
        words.len() > 0 ==> wrapped(words, width).last().len() > 0,
    decreases words.len(),
{
    reveal_strlit(" ");
    assert(" "@ == seq![' ']);
    if words.len() > 0 {
        let rest = words.drop_last();
        let word = words.last();
        let before = wrapped(rest, width);
        let line = before.last();
        let sep = " "@;
        lemma_wrapped_nonempty(rest, width);
        law_wrapping_keeps_words(rest, width);
        assert(rest.push(word) == words);
        lemma_join_push(rest, word, sep);
        assert(before.drop_last().push(line) == before);
        lemma_join_push(before.drop_last(), line, sep);
        if rest.len() == 0 {
            assert(before.drop_last() == Seq::<Seq<char>>::empty());
            lemma_join_push(before.drop_last(), word, sep);
        } else if line.len() + 1 + word.len() <= width {
            let longer = line.push(' ') + word;
            lemma_join_push(before.drop_last(), longer, sep);
            assert(longer == line + sep + word);
            if before.len() > 1 {
                let head = join_of(before.drop_last(), sep) + sep;
                assert(head + (line + sep + word) == head + line + sep + word);
            }
        } else {
            lemma_join_push(before, word, sep);
        }
    }
}

/// Every line of a wrapped text fits, or is a single word of the text.
pub proof fn law_wrapped_text_fits(s: Seq<char>, width: nat, i: int)
    requires
        width > 0,
        0 <= i < wrap_of(s, width).len(),
    ensures
        wrap_of(s, width)[i].len() <= width || exists|k: int|
            0 <= k < split_on(s, '\n').len() && words_of(#[trigger] split_on(s, '\n')[k]).contains(
                wrap_of(s, width)[i],
            ),
{
    lemma_lines_fit(split_on(s, '\n'), width, i);
}

proof fn lemma_lines_fit(paragraphs: Seq<Seq<char>>, width: nat, i: int)
    requires
        0 <= i < all_lines(paragraphs, width).len(),
    ensures
        all_lines(paragraphs, width)[i].len() <= width || exists|k: int|
            0 <= k < paragraphs.len() && words_of(#[trigger] paragraphs[k]).contains(
                all_lines(paragraphs, width)[i],
            ),
    decreases paragraphs.len(),
{
    let before = all_lines(paragraphs.drop_last(), width);
    let last = paragraphs.last();
    if i < before.len() {
        lemma_lines_fit(paragraphs.drop_last(), width, i);
        if before[i].len() > width {
            let k = choose|k: int|
                0 <= k < paragraphs.drop_last().len() && words_of(
                    #[trigger] paragraphs.drop_last()[k],
                ).contains(before[i]);
            assert(paragraphs[k] == paragraphs.drop_last()[k]);
        }
    } else if last.len() > width {
        law_wrapped_lines_fit(words_of(last), width, i - before.len());
        assert(paragraphs[paragraphs.len() - 1] == last);
    }
}

/// Whether a line stays as it is when it is wrapped.
spec fn stays(line: Seq<char>, width: nat) -> bool {
    !line.contains('\n') && (line.len() <= width || is_word(line))
}

proof fn lemma_word_stays(word: Seq<char>, width: nat)
    requires
        is_word(word),
    ensures
        stays(word, width),
{
    if word.contains('\n') {
        let j = choose|j: int| 0 <= j < word.len() && word[j] == '\n';
        assert(!crate::text::is_white(word[j]));
    }
}

proof fn lemma_wrapped_stay(words: Seq<Seq<char>>, width: nat)
    requires
        forall|i: int| 0 <= i < words.len() ==> is_word(#[trigger] words[i]),
    ensures
        forall|i: int|
            0 <= i < wrapped(words, width).len() ==> stays(
                #[trigger] wrapped(words, width)[i],
                width,
            ),
    decreases words.len(),
{
    if words.len() > 0 {
        let rest = words.drop_last();
        let before = wrapped(rest, width);
        let line = before.last();
        let word = words.last();
        assert forall|i: int| 0 <= i < rest.len() implies is_word(#[trigger] rest[i]) by {
            assert(rest[i] == words[i]);
        }
        lemma_wrapped_stay(rest, width);
        lemma_wrapped_nonempty(rest, width);
        assert(is_word(words[words.len() - 1]));
        lemma_word_stays(word, width);
        assert(stays(before[before.len() - 1], width));
        let longer = line.push(' ') + word;
        if longer.contains('\n') {
            let j = choose|j: int| 0 <= j < longer.len() && longer[j] == '\n';
            if j < line.len() {
                assert(line[j] == '\n');
            } else if j > line.len() {
                assert(word[j - line.len() - 1] == '\n');
            }
        }
        assert forall|i: int| 0 <= i < wrapped(words, width).len() implies stays(
            #[trigger] wrapped(words, width)[i],
            width,
        ) by {
            if i < before.len() {
                assert(stays(before[i], width));
            }
        }
    }
}

proof fn lemma_all_lines_stay(paragraphs: Seq<Seq<char>>, width: nat)
    requires
        forall|i: int| 0 <= i < paragraphs.len() ==> !(#[trigger] paragraphs[i]).contains('\n'),
    ensures
        forall|i: int|
            0 <= i < all_lines(paragraphs, width).len() ==> stays(
                #[trigger] all_lines(paragraphs, width)[i],
                width,
            ),
    decreases paragraphs.len(),
{
    if paragraphs.len() > 0 {
        let rest = paragraphs.drop_last();
        let last = paragraphs.last();
        let before = all_lines(rest, width);
        assert forall|i: int| 0 <= i < rest.len() implies !(#[trigger] rest[i]).contains('\n') by {
            assert(rest[i] == paragraphs[i]);
        }
        lemma_all_lines_stay(rest, width);
        assert(!paragraphs[paragraphs.len() - 1].contains('\n'));
        lemma_words_are_words(last);
        lemma_wrapped_stay(words_of(last), width);
        assert forall|i: int| 0 <= i < all_lines(paragraphs, width).len() implies stays(
            #[trigger] all_lines(paragraphs, width)[i],
            width,
        ) by {
            if i < before.len() {
                assert(stays(before[i], width));
            } else {
                assert(all_lines(paragraphs, width)[i] == paragraph_lines(last, width)[i
                    - before.len()]);
            }
        }
    }
}

proof fn lemma_staying_lines(lines: Seq<Seq<char>>, width: nat)
    requires
        forall|i: int| 0 <= i < lines.len() ==> stays(#[trigger] lines[i], width),
    ensures
        all_lines(lines, width) == lines,
    decreases lines.len(),
{
    if lines.len() > 0 {
        let rest = lines.drop_last();
        let last = lines.last();
        assert forall|i: int| 0 <= i < rest.len() implies stays(#[trigger] rest[i], width) by {
            assert(rest[i] == lines[i]);
        }
        lemma_staying_lines(rest, width);
        assert(stays(lines[lines.len() - 1], width));
        if last.len() > width {
            lemma_word_alone(last);
            reveal_with_fuel(wrapped, 2);
            assert(seq![last].drop_last() == Seq::<Seq<char>>::empty());
            assert(wrapped(seq![last], width) == seq![last]);
        }
        assert(rest + seq![last] == lines);
    }
}

/// Wrapping the wrapped lines again changes nothing.
pub proof fn law_wrapping_settles(s: Seq<char>, width: nat)
    requires
        width > 0,
    ensures
        wrap_of(join_of(wrap_of(s, width), "\n"@), width) == wrap_of(s, width),
{
    reveal_strlit("\n");
    assert("\n"@ == seq!['\n']);
    let lines = wrap_of(s, width);
    lemma_split_parts(s, '\n');
    lemma_all_lines_stay(split_on(s, '\n'), width);
    lemma_wrap_nonempty(s, width);
    assert forall|i: int| 0 <= i < lines.len() implies !(#[trigger] lines[i]).contains('\n') by {
        assert(stays(lines[i], width));
    }
    lemma_split_joined(lines, '\n');
    lemma_staying_lines(lines, width);
}

/// The words on all lines.
spec fn words_on(lines: Seq<Seq<char>>) -> Seq<Seq<char>>
    decreases lines.len(),
{
    if lines.len() == 0 {
        Seq::empty()
    } else {
        words_on(lines.drop_last()) + words_of(lines.last())
    }
}

proof fn lemma_words_on_push(lines: Seq<Seq<char>>, last: Seq<char>)
    ensures
        words_on(lines.push(last)) == words_on(lines) + words_of(last),
{
    assert(lines.push(last).drop_last() == lines);
}

proof fn lemma_words_on_both(a: Seq<Seq<char>>, b: Seq<Seq<char>>)
    ensures
        words_on(a + b) == words_on(a) + words_on(b),
    decreases b.len(),
{
    if b.len() == 0 {
        assert(a + b == a);
        assert(words_on(a) + Seq::<Seq<char>>::empty() == words_on(a));
    } else {
        lemma_words_on_both(a, b.drop_last());
        assert((a + b).drop_last() == a + b.drop_last());
        assert(words_on(a) + (words_on(b.drop_last()) + words_of(b.last())) == words_on(a)
            + words_on(b.drop_last()) + words_of(b.last()));
    }
}

proof fn lemma_words_of_joined(lines: Seq<Seq<char>>)
    ensures
        words_of(join_of(lines, seq!['\n'])) == words_on(lines),
    decreases lines.len(),
{
    if lines.len() == 1 {
        reveal_with_fuel(words_on, 2);
        assert(lines.drop_last() == Seq::<Seq<char>>::empty());
        assert(Seq::<Seq<char>>::empty() + words_of(lines[0]) == words_of(lines[0]));
    } else if lines.len() > 1 {
        let before = join_of(lines.drop_last(), seq!['\n']);
        lemma_words_of_joined(lines.drop_last());
        lemma_words_apart(before, '\n', lines.last());
        assert(before + seq!['\n'] + lines.last() == before.push('\n') + lines.last());
    }
}

proof fn lemma_words_on_wrapped(words: Seq<Seq<char>>, width: nat)
    requires
        forall|i: int| 0 <= i < words.len() ==> is_word(#[trigger] words[i]),
    ensures
        words_on(wrapped(words, width)) == words,
    decreases words.len(),
{
    if words.len() == 0 {
        reveal_with_fuel(words_on, 2);
        assert(wrapped(words, width).drop_last() == Seq::<Seq<char>>::empty());
        assert(words_on(wrapped(words, width)) == words);
    } else {
        let rest = words.drop_last();
        let before = wrapped(rest, width);
        let line = before.last();
        let word = words.last();
        let head = before.drop_last();
        assert forall|i: int| 0 <= i < rest.len() implies is_word(#[trigger] rest[i]) by {
            assert(rest[i] == words[i]);
        }
        lemma_words_on_wrapped(rest, width);
        lemma_wrapped_nonempty(rest, width);
        assert(is_word(words[words.len() - 1]));
        lemma_word_alone(word);
        assert(rest.push(word) == words);
        assert(head.push(line) == before);
        lemma_words_on_push(head, line);
        if line.len() == 0 {
            lemma_words_on_push(head, word);
            assert(words_on(head) == rest);
        } else if line.len() + 1 + word.len() <= width {
            lemma_words_on_push(head, line.push(' ') + word);
            lemma_words_apart(line, ' ', word);
            assert(words_on(head) + (words_of(line) + seq![word]) == (words_on(head) + words_of(
                line,
            )).push(word));
        } else {
            lemma_words_on_push(before, word);
        }
    }
}

proof fn lemma_words_on_all_lines(paragraphs: Seq<Seq<char>>, width: nat)
    ensures
        words_on(all_lines(paragraphs, width)) == words_on(paragraphs),
    decreases paragraphs.len(),
{
    if paragraphs.len() > 0 {
        let last = paragraphs.last();
        let lines = paragraph_lines(last, width);
        lemma_words_on_all_lines(paragraphs.drop_last(), width);
        lemma_words_on_both(all_lines(paragraphs.drop_last(), width), lines);
        if last.len() <= width {
            reveal_with_fuel(words_on, 2);
            assert(lines.drop_last() == Seq::<Seq<char>>::empty());
            assert(words_on(lines) == words_of(last));
        } else {
            lemma_words_are_words(last);
            lemma_words_on_wrapped(words_of(last), width);
        }
    }
}

/// Wrapping a text keeps its words, in their order.
pub proof fn law_wrapped_text_keeps_words(s: Seq<char>, width: nat)
    ensures
        words_of(join_of(wrap_of(s, width), "\n"@)) == words_of(s),
{
    reveal_strlit("\n");
    assert("\n"@ == seq!['\n']);
    if width > 0 {
        let paragraphs = split_on(s, '\n');
        lemma_words_of_joined(wrap_of(s, width));
        lemma_words_on_all_lines(paragraphs, width);
        lemma_words_of_joined(paragraphs);
        lemma_join_split(s, '\n');
    }
}

// ── How many lines wrapping takes ────────────────────────────────────────────

/// All words of groups of words.
pub open spec fn ungrouped(groups: Seq<Seq<Seq<char>>>) -> Seq<Seq<char>>
    decreases groups.len(),
{
    if groups.len() == 0 {
        Seq::empty()
    } else {
        ungrouped(groups.drop_last()) + groups.last()
    }
}

/// Whether groups of words can stand on lines: each has a word, and fits with
/// single spaces between its words, or is a single word.
pub open spec fn fit_on_lines(groups: Seq<Seq<Seq<char>>>, width: nat) -> bool {
    forall|i: int|
        0 <= i < groups.len() ==> (#[trigger] groups[i]).len() > 0 && (groups[i].len() == 1
            || join_of(groups[i], " "@).len() <= width)
}

/// Taking the last word away leaves groups that fit, of the other words.
proof fn lemma_without_last_word(groups: Seq<Seq<Seq<char>>>, width: nat) -> (rest: Seq<
    Seq<Seq<char>>,
>)
    requires
        groups.len() > 0,
        fit_on_lines(groups, width),
    ensures
        rest == (if groups.last().len() == 1 {
            groups.drop_last()
        } else {
            groups.drop_last().push(groups.last().drop_last())
        }),
        fit_on_lines(rest, width),
        ungrouped(groups).len() > 0,
        ungrouped(rest) == ungrouped(groups).drop_last(),
        ungrouped(groups).last() == groups.last().last(),
{
    let g = groups.last();
    let head = groups.drop_last();
    assert(g == groups[groups.len() - 1] && g.len() > 0);
    assert forall|i: int| 0 <= i < head.len() implies (#[trigger] head[i]).len() > 0 && (
    head[i].len() == 1 || join_of(head[i], " "@).len() <= width) by {
        assert(head[i] == groups[i]);
    }
    if g.len() == 1 {
        assert(ungrouped(groups).drop_last() == ungrouped(head));
        head
    } else {
        let rest = head.push(g.drop_last());
        assert(rest.drop_last() == head);
        assert(ungrouped(groups).drop_last() == ungrouped(head) + g.drop_last());
        assert(g.drop_last().push(g.last()) == g);
        lemma_join_push(g.drop_last(), g.last(), " "@);
        assert forall|i: int| 0 <= i < rest.len() implies (#[trigger] rest[i]).len() > 0 && (
        rest[i].len() == 1 || join_of(rest[i], " "@).len() <= width) by {
            if i < head.len() {
                assert(rest[i] == head[i]);
            }
        }
        rest
    }
}

proof fn lemma_wrapped_is_ahead(groups: Seq<Seq<Seq<char>>>, width: nat)
    requires
        groups.len() > 0,
        fit_on_lines(groups, width),
        forall|i: int|
            0 <= i < ungrouped(groups).len() ==> (#[trigger] ungrouped(groups)[i]).len() > 0,
    ensures
        wrapped(ungrouped(groups), width).len() <= groups.len(),
        wrapped(ungrouped(groups), width).len() == groups.len() ==> wrapped(
            ungrouped(groups),
            width,
        ).last().len() <= join_of(groups.last(), " "@).len(),
    decreases ungrouped(groups).len(),
{
    reveal_strlit(" ");
    let words = ungrouped(groups);
    let g = groups.last();
    let rest = lemma_without_last_word(groups, width);
    let others = ungrouped(rest);
    let before = wrapped(others, width);
    let line = before.last();
    let word = words.last();
    assert(g == groups[groups.len() - 1] && g.len() > 0);
    assert(others == words.drop_last());
    assert forall|i: int| 0 <= i < others.len() implies (#[trigger] others[i]).len() > 0 by {
        assert(others[i] == words[i]);
    }
    assert(g.drop_last().push(g.last()) == g);
    lemma_join_push(g.drop_last(), g.last(), " "@);
    lemma_wrapped_nonempty(others, width);
    if rest.len() == 0 {
        assert(others.len() == 0);
        assert(wrapped(words, width) == seq![word]);
    } else {
        lemma_without_last_word(rest, width);
        lemma_wrapped_is_ahead(rest, width);
        law_wrapping_keeps_words(others, width);
    }
}

/// Wrapping takes the fewest lines: words that stand on lines in their order, with
/// single spaces between them, take at least as many.
pub proof fn law_wrapping_takes_fewest_lines(s: Seq<char>, width: nat, groups: Seq<Seq<Seq<char>>>)
    requires
        groups.len() > 0,
        fit_on_lines(groups, width),
        ungrouped(groups) == words_of(s),
    ensures
        paragraph_lines(s, width).len() <= groups.len(),
{
    lemma_words_are_words(s);
    assert forall|i: int| 0 <= i < words_of(s).len() implies (#[trigger] words_of(s)[i]).len()
        > 0 by {
        assert(is_word(words_of(s)[i]));
    }
    lemma_wrapped_is_ahead(groups, width);
}

/// The number of lines of several paragraphs.
pub open spec fn lines_in_all(paragraphs: Seq<Seq<Seq<Seq<char>>>>) -> nat
    decreases paragraphs.len(),
{
    if paragraphs.len() == 0 {
        0
    } else {
        lines_in_all(paragraphs.drop_last()) + paragraphs.last().len()
    }
}

/// Whether groups of words are the words of a paragraph on lines that fit. A
/// paragraph without words has one line, which holds none.
pub open spec fn can_stand(groups: Seq<Seq<Seq<char>>>, paragraph: Seq<char>, width: nat) -> bool {
    &&& groups.len() > 0
    &&& words_of(paragraph).len() > 0 ==> fit_on_lines(groups, width) && ungrouped(groups)
        == words_of(paragraph)
}

proof fn lemma_fewest_lines(
    paragraphs: Seq<Seq<char>>,
    width: nat,
    groups: Seq<Seq<Seq<Seq<char>>>>,
)
    requires
        groups.len() == paragraphs.len(),
        forall|i: int|
            0 <= i < groups.len() ==> can_stand(#[trigger] groups[i], paragraphs[i], width),
    ensures
        all_lines(paragraphs, width).len() <= lines_in_all(groups),
    decreases paragraphs.len(),
{
    if paragraphs.len() > 0 {
        let n = paragraphs.len() - 1;
        let p = paragraphs.drop_last();
        let g = groups.drop_last();
        assert forall|i: int| 0 <= i < g.len() implies can_stand(#[trigger] g[i], p[i], width) by {
            assert(g[i] == groups[i] && p[i] == paragraphs[i]);
        }
        lemma_fewest_lines(p, width, g);
        assert(can_stand(groups[n], paragraphs[n], width));
        let last = paragraphs.last();
        if words_of(last).len() > 0 {
            law_wrapping_takes_fewest_lines(last, width, groups.last());
        }
    }
}

/// A wrapped text takes the fewest lines: its words, each paragraph on lines of its
/// own, take at least as many, however they stand on lines that fit.
pub proof fn law_wrapped_text_takes_fewest_lines(
    s: Seq<char>,
    width: nat,
    groups: Seq<Seq<Seq<Seq<char>>>>,
)
    requires
        width > 0,
        groups.len() == split_on(s, '\n').len(),
        forall|i: int|
            0 <= i < groups.len() ==> can_stand(
                #[trigger] groups[i],
                split_on(s, '\n')[i],
                width,
            ),
    ensures
        wrap_of(s, width).len() <= lines_in_all(groups),
{
    lemma_fewest_lines(split_on(s, '\n'), width, groups);
}

/// A paragraph that fits is a line as it is; an empty one is an empty line.
pub proof fn law_fitting_line_stays(s: Seq<char>, width: nat)
    requires
        width > 0,
        !s.contains('\n'),
        s.len() <= width,
    ensures
        wrap_of(s, width) == seq![s],
{
    crate::text::lemma_split_one(s, '\n');
    lemma_all_lines_one(s, width);
}

proof fn lemma_all_lines_one(s: Seq<char>, width: nat)
    ensures
        all_lines(seq![s], width) == paragraph_lines(s, width),
{
    reveal_with_fuel(all_lines, 2);
    assert(seq![s].drop_last() == Seq::<Seq<char>>::empty());
    assert(Seq::<Seq<char>>::empty() + paragraph_lines(s, width) == paragraph_lines(s, width));
}

proof fn lemma_all_lines_both(a: Seq<Seq<char>>, b: Seq<Seq<char>>, width: nat)
    ensures
        all_lines(a + b, width) == all_lines(a, width) + all_lines(b, width),
    decreases b.len(),
{
    if b.len() == 0 {
        assert(a + b == a);
        assert(all_lines(a, width) + Seq::<Seq<char>>::empty() == all_lines(a, width));
    } else {
        lemma_all_lines_both(a, b.drop_last(), width);
        assert((a + b).drop_last() == a + b.drop_last());
        assert(all_lines(a, width) + (all_lines(b.drop_last(), width) + paragraph_lines(
            b.last(),
            width,
        )) == all_lines(a, width) + all_lines(b.drop_last(), width) + paragraph_lines(
            b.last(),
            width,
        ));
    }
}

/// Each line feed begins a new line: the lines of two texts with a line feed between
/// them are those of the first and then those of the second, and each text has at
/// least one.
pub proof fn law_line_feeds_part_lines(a: Seq<char>, b: Seq<char>, width: nat)
    requires
        width > 0,
    ensures
        wrap_of(a.push('\n') + b, width) == wrap_of(a, width) + wrap_of(b, width),
        wrap_of(a, width).len() >= 1,
        wrap_of(b, width).len() >= 1,
{
    crate::text::lemma_split_both(a, b, '\n');
    lemma_all_lines_both(split_on(a, '\n'), split_on(b, '\n'), width);
    lemma_wrap_nonempty(a, width);
    lemma_wrap_nonempty(b, width);
}

/// A text that is cut has just the width: what it began with, and an ellipsis.
pub proof fn law_cut_text_fills_the_width(s: Seq<char>, width: nat)
    requires
        0 < width < s.len(),
    ensures
        truncated(s, width).len() == width,
        truncated(s, width).last() == '…',
        truncated(s, width).drop_last() == s.take(width - 1),
{
    assert(s.take(width - 1).push('…').drop_last() == s.take(width - 1));
}

/// A centered text stands whole between fill characters, of which one more may stand
/// behind it than before it; one that does not fit is left as it is.
pub proof fn law_centered_text_stands_in_the_middle(s: Seq<char>, width: nat, fill: char)
    ensures
        s.len() >= width ==> centered(s, width, fill) == s,
        s.len() < width ==> centered(s, width, fill).len() == width && ({
            let left = (width - s.len()) / 2;
            let c = centered(s, width, fill);
            &&& c.subrange(left, left + s.len()) == s
            &&& forall|i: int| 0 <= i < left ==> #[trigger] c[i] == fill
            &&& forall|i: int| left + s.len() <= i < width ==> #[trigger] c[i] == fill
        }),
{
    if s.len() < width {
        let left = (width - s.len()) / 2;
        assert(centered(s, width, fill).subrange(left, left + s.len()) == s);
    }
}

} // verus!
