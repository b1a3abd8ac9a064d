//! Completion of mentions and of paths.

use vstd::prelude::*;

use crate::command::{Tab, TabView};
use crate::cursor::within;
use crate::ids::Uuid;
use crate::order::{law_sorted_texts_are_in_order, lex_le, sort_texts, sorted_texts};
use crate::path::{
    file_name, file_name_of, is_component, law_path_has_directory_and_name, parent, parent_of,
};
use crate::roster::SenderNames;
use crate::text::{
    byte_len, byte_length, char_index, char_pos, chars_of, is_boundary, join, join_of, lemma_boundary_ends, lemma_char_pos, lower,
    lower_of, offset, rfind, starts_with, string_of, texts,
};

verus! {

// ── Mentions ─────────────────────────────────────────────────────────────────

/// The place of the last `@`; -1 if there is none.
pub open spec fn last_at(s: Seq<char>) -> int
    decreases s.len(),
{
    if s.len() == 0 {
        -1
    } else if s.last() == '@' {
        s.len() - 1
    } else {
        last_at(s.drop_last())
    }
}

proof fn lemma_last_at(s: Seq<char>, i: int)
    requires
        -1 <= i < s.len(),
        i >= 0 ==> s[i] == '@',
        forall|j: int| i < j < s.len() ==> s[j] != '@',
    ensures
        last_at(s) == i,
    decreases s.len(),
{
    if s.len() > 0 && i < s.len() - 1 {
        lemma_last_at(s.drop_last(), i);
    }
}

/// The place lies within the text.
pub proof fn lemma_last_at_bound(s: Seq<char>)
    ensures
        -1 <= last_at(s) < s.len(),
    decreases s.len(),
{
    if s.len() > 0 {
        lemma_last_at_bound(s.drop_last());
    }
}

/// The mentions of those names that, in lower case, start with a prefix;
/// `lowered` holds the names in lower case.
pub open spec fn mentions_of(
    names: Seq<Seq<char>>,
    lowered: Seq<Seq<char>>,
    prefix: Seq<char>,
) -> Seq<Seq<char>>
    decreases names.len(),
{
    if names.len() == 0 {
        Seq::empty()
    } else {
        let before = mentions_of(names.drop_last(), lowered.drop_last(), prefix);
        if prefix.is_prefix_of(lowered.last()) {
            before.push("@"@ + names.last() + " "@)
        } else {
            before
        }
    }
}

/// The mentions of those names that, in lower case, start with a prefix, in
/// order.
pub fn mention_candidates(names: &Vec<String>, lowered: &Vec<String>, prefix: &str) -> (r: Vec<
    String,
>)
    requires
        names@.len() == lowered@.len(),
    ensures
        texts(r@) == sorted_texts(mentions_of(texts(names@), texts(lowered@), prefix@)),
{
    let n = names.len();
    let ghost a = texts(names@);
    let ghost b = texts(lowered@);
    let mut out: Vec<String> = Vec::new();
    let mut i: usize = 0;
    proof {
        assert(texts(out@) == mentions_of(a.take(0), b.take(0), prefix@));
    }
    while i < n
        invariant
            i <= n == names@.len() == lowered@.len(),
            a == texts(names@),
            b == texts(lowered@),
            texts(out@) == mentions_of(a.take(i as int), b.take(i as int), prefix@),
        decreases n - i,
    {
        proof {
            assert(a.take(i + 1).drop_last() == a.take(i as int));
            assert(b.take(i + 1).drop_last() == b.take(i as int));
            assert(a[i as int] == names@[i as int]@);
            assert(b[i as int] == lowered@[i as int]@);
        }
        if starts_with(lowered[i].as_str(), prefix) {
            let ghost before = out@;
            let m = "@".to_owned().concat(names[i].as_str()).concat(" ");
            out.push(m);
            proof {
                assert(texts(out@) == texts(before).push("@"@ + a[i as int] + " "@));
            }
        }
        i += 1;
    }
    proof {
        assert(a.take(n as int) == a);
        assert(b.take(n as int) == b);
    }
    sort_texts(out)
}

/// Names without the accounts that they belong to.
pub open spec fn bare_names(names: Seq<(Uuid, Seq<char>)>) -> Seq<Seq<char>> {
    names.map_values(|e: (Uuid, Seq<char>)| e.1)
}

/// Each text in lower case.
pub open spec fn all_lower(s: Seq<Seq<char>>) -> Seq<Seq<char>> {
    s.map_values(|t: Seq<char>| lower_of(t))
}

/// The place, in characters, of the `@` of the mention that ends at character
/// `k`, if there is one: no space follows the `@`.
pub open spec fn mention_start(input: Seq<char>, k: int) -> Option<int> {
    let before = input.take(k);
    let at = last_at(before);
    if at >= 0 && !before.skip(at + 1).contains(' ') {
        Some(at)
    } else {
        None
    }
}

/// The mentions that the text between the `@` and character `k` can be completed
/// to.
pub open spec fn candidates_of(input: Seq<char>, k: int, names: Seq<(Uuid, Seq<char>)>) -> Seq<
    Seq<char>,
> {
    match mention_start(input, k) {
        Some(at) => sorted_texts(
            mentions_of(
                bare_names(names),
                all_lower(bare_names(names)),
                lower_of(input.subrange(at + 1, k)),
            ),
        ),
        None => Seq::empty(),
    }
}

/// The mentions that the text before the cursor can be completed to, with the
/// byte range that a mention replaces; `None` if there are none. A cursor past the
/// end stands behind the last character.
pub fn completion_candidates(input: &str, cursor: usize, sender_names: &SenderNames) -> (r: Option<
    (usize, usize, Vec<String>),
>)
    requires
        cursor >= byte_len(input@) || is_boundary(input@, cursor as int),
    ensures
        ({
            let k = char_pos(input@, within(input@, cursor as int));
            let found = candidates_of(input@, k, sender_names@);
            &&& r is Some <==> found.len() > 0
            &&& r matches Some(c) ==> {
                &&& c.0 == offset(input@, mention_start(input@, k).unwrap())
                &&& is_boundary(input@, c.0 as int)
                &&& c.1 == cursor
                &&& texts(c.2@) == found
                &&& c.2@.len() == found.len()
            }
        }),
{
    let chars = chars_of(input);
    let len = byte_length(input);
    proof {
        lemma_boundary_ends(input@);
    }
    let k = char_index(
        &chars,
        if cursor <= len {
            cursor
        } else {
            len
        },
    );
    let ghost before = input@.take(k as int);
    match rfind(&chars, k, '@') {
        None => {
            proof {
                assert forall|j: int| -1 < j < before.len() implies before[j] != '@' by {
                    assert(before.contains(before[j]));
                }
                lemma_last_at(before, -1);
            }
            None
        },
        Some(at) => {
            let ghost part = input@.subrange(at + 1, k as int);
            proof {
                assert(chars@.subrange(at + 1, k as int) == part);
                assert forall|j: int| at < j < before.len() implies before[j] != '@' by {
                    assert(part[j - at - 1] == before[j]);
                    assert(part.contains(part[j - at - 1]));
                }
                lemma_last_at(before, at as int);
                assert(before.skip(at + 1) == part);
            }
            match rfind(&chars, k, ' ') {
                Some(sp) if sp > at => {
                    proof {
                        assert(part[sp - at - 1] == ' ');
                        assert(part.contains(' '));
                    }
                    return None;
                },
                Some(sp) => {
                    proof {
                        assert forall|j: int| 0 <= j < part.len() implies #[trigger] part[j] != ' ' by {
                            let tail = chars@.subrange(sp + 1, k as int);
                            assert(tail[j + at - sp] == part[j]);
                            assert(tail.contains(tail[j + at - sp]));
                        }
                    }
                },
                None => {
                    proof {
                        assert forall|j: int| 0 <= j < part.len() implies #[trigger] part[j] != ' ' by {
                            assert(before[j + at + 1] == part[j]);
                            assert(before.contains(before[j + at + 1]));
                        }
                    }
                },
            }
            let partial = string_of(&chars, at + 1, k);
            let prefix = lower(partial.as_str());
            let n = sender_names.entries.len();
            let mut names: Vec<String> = Vec::new();
            let mut lowered: Vec<String> = Vec::new();
            let mut i: usize = 0;
            while i < n
                invariant
                    i <= n == sender_names.entries@.len(),
                    names@.len() == i,
                    lowered@.len() == i,
                    forall|j: int|
                        0 <= j < i ==> (#[trigger] names@[j])@ == sender_names.entries@[j].1@,
                    forall|j: int|
                        0 <= j < i ==> (#[trigger] lowered@[j])@ == lower_of(
                            sender_names.entries@[j].1@,
                        ),
                decreases n - i,
            {
                names.push(sender_names.entries[i].1.clone());
                lowered.push(lower(sender_names.entries[i].1.as_str()));
                i += 1;
            }
            proof {
                assert(texts(names@) == bare_names(sender_names@));
                assert(texts(lowered@) == all_lower(bare_names(sender_names@)));
            }
            let candidates = mention_candidates(&names, &lowered, prefix.as_str());
            proof {
                assert(texts(candidates@).len() == candidates@.len());
                assert(mention_start(input@, k as int) == Some(at as int));
            }
            if candidates.len() == 0 {
                return None;
            }
            let start = prefix_length(&chars, at);
            proof {
                lemma_char_pos(input@, at as int);
            }
            Some((start, cursor, candidates))
        },
    }
}

/// The number of bytes before a character.
fn prefix_length(chars: &Vec<char>, end: usize) -> (r: usize)
    requires
        end <= chars@.len(),
    ensures
        r == offset(chars@, end as int),
{
    proof {
        assert(chars@.subrange(0, end as int) == chars@.take(end as int));
    }
    byte_length(string_of(chars, 0, end).as_str())
}

// ── Paths ────────────────────────────────────────────────────────────────────

/// What has to be listed to complete a path.
pub struct PathQuery {
    /// The directory to list.
    pub dir: String,
    /// What the names must start with.
    pub file_prefix: String,
    /// What stands before the names in the completed path.
    pub dir_prefix: String,
}

/// An entry of a directory.
pub struct DirEntry {
    pub name: String,
    pub is_dir: bool,
}

/// The directory of a path that is being typed, if it names one.
pub open spec fn typed_dir(partial: Seq<char>) -> Option<Seq<char>> {
    match parent_of(partial) {
        Some(p) => if p.len() > 0 {
            Some(p)
        } else {
            None
        },
        None => None,
    }
}

/// The directory to list for a path that is being typed.
pub open spec fn query_dir(partial: Seq<char>) -> Seq<char> {
    if partial.len() > 0 && partial.last() == '/' {
        partial
    } else {
        match typed_dir(partial) {
            Some(p) => p,
            None => "."@,
        }
    }
}

/// What the names in the directory must start with.
pub open spec fn query_prefix(partial: Seq<char>) -> Seq<char> {
    if partial.len() > 0 && partial.last() == '/' {
        Seq::empty()
    } else {
        match file_name_of(partial) {
            Some(n) => n,
            None => partial,
        }
    }
}

/// What stands before the names in the completed path.
pub open spec fn query_dir_prefix(partial: Seq<char>) -> Seq<char> {
    if partial.len() > 0 && partial.last() == '/' {
        partial
    } else {
        match typed_dir(partial) {
            Some(p) => p + "/"@,
            None => Seq::empty(),
        }
    }
}

/// What has to be listed to complete a path that is being typed.
pub fn path_query(partial: &str) -> (r: PathQuery)
    ensures
        r.dir@ == query_dir(partial@),
        r.file_prefix@ == query_prefix(partial@),
        r.dir_prefix@ == query_dir_prefix(partial@),
{
    proof {
        reveal_strlit("");
        assert(""@ == Seq::<char>::empty());
    }
    let chars = chars_of(partial);
    let n = chars.len();
    if n > 0 && chars[n - 1] == '/' {
        return PathQuery {
            dir: partial.to_owned(),
            file_prefix: "".to_owned(),
            dir_prefix: partial.to_owned(),
        };
    }
    let file_prefix = match file_name(partial) {
        Some(name) => name,
        None => partial.to_owned(),
    };
    match parent(partial) {
        Some(p) if !p.as_str().is_empty() => {
            let dir_prefix = p.clone().concat("/");
            PathQuery { dir: p, file_prefix, dir_prefix }
        },
        _ => PathQuery { dir: ".".to_owned(), file_prefix, dir_prefix: "".to_owned() },
    }
}

/// The completed paths for the entries that start with a prefix.
pub open spec fn paths_of(
    entries: Seq<DirEntry>,
    file_prefix: Seq<char>,
    dir_prefix: Seq<char>,
) -> Seq<Seq<char>>
    decreases entries.len(),
{
    if entries.len() == 0 {
        Seq::empty()
    } else {
        let before = paths_of(entries.drop_last(), file_prefix, dir_prefix);
        let e = entries.last();
        if file_prefix.is_prefix_of(e.name@) {
            before.push(
                dir_prefix + e.name@ + (if e.is_dir {
                    "/"@
                } else {
                    ""@
                }),
            )
        } else {
            before
        }
    }
}

/// The paths that a path can be completed to, given the entries of the directory
/// that its query names.
pub open spec fn completed_paths(partial: Seq<char>, entries: Seq<DirEntry>) -> Seq<Seq<char>> {
    sorted_texts(paths_of(entries, query_prefix(partial), query_dir_prefix(partial)))
}

/// The paths that a path can be completed to, given the entries of the directory
/// that its query names; none if it cannot be listed.
pub fn complete_path(partial: &str, entries: &Vec<DirEntry>) -> (r: Vec<String>)
    ensures
        texts(r@) == completed_paths(partial@, entries@),
{
    let q = path_query(partial);
    let n = entries.len();
    let mut out: Vec<String> = Vec::new();
    let mut i: usize = 0;
    proof {
        assert(texts(out@) == paths_of(entries@.take(0), q.file_prefix@, q.dir_prefix@));
    }
    while i < n
        invariant
            i <= n == entries@.len(),
            texts(out@) == paths_of(entries@.take(i as int), q.file_prefix@, q.dir_prefix@),
        decreases n - i,
    {
        proof {
            assert(entries@.take(i + 1).drop_last() == entries@.take(i as int));
        }
        let e = &entries[i];
        if starts_with(e.name.as_str(), q.file_prefix.as_str()) {
            let ghost before = out@;
            let end = if e.is_dir {
                "/"
            } else {
                ""
            };
            let path = q.dir_prefix.clone().concat(e.name.as_str()).concat(end);
            out.push(path);
            proof {
                assert(texts(out@) == texts(before).push(path@));
            }
        }
        i += 1;
    }
    proof {
        assert(entries@.take(n as int) == entries@);
    }
    sort_texts(out)
}

/// A text without the slashes at its end.
pub open spec fn without_slashes(s: Seq<char>) -> Seq<char>
    decreases s.len(),
{
    if s.len() > 0 && s.last() == '/' {
        without_slashes(s.drop_last())
    } else {
        s
    }
}

/// How a completed path is listed on the status bar: its last component, with
/// the slash of a directory.
pub open spec fn path_label(c: Seq<char>) -> Seq<char> {
    let name = match file_name_of(without_slashes(c)) {
        Some(n) => n,
        None => c,
    };
    if c.len() > 0 && c.last() == '/' {
        name + "/"@
    } else {
        name
    }
}

fn label_of(c: &str) -> (r: String)
    ensures
        r@ == path_label(c@),
{
    let chars = chars_of(c);
    let n = chars.len();
    let mut end = n;
    proof {
        assert(c@.take(n as int) == c@);
    }
    while end > 0 && chars[end - 1] == '/'
        invariant
            end <= n == chars@.len(),
            chars@ == c@,
            without_slashes(c@.take(end as int)) == without_slashes(c@),
        decreases end,
    {
        proof {
            assert(c@.take(end as int).drop_last() == c@.take(end - 1));
        }
        end -= 1;
    }
    let stripped = string_of(&chars, 0, end);
    proof {
        assert(c@.subrange(0, end as int) == c@.take(end as int));
    }
    let name = match file_name(stripped.as_str()) {
        Some(name) => name,
        None => c.to_owned(),
    };
    if n > 0 && chars[n - 1] == '/' {
        name.concat("/")
    } else {
        name
    }
}

/// How completed paths are listed on the status bar.
pub open spec fn path_labels(s: Seq<Seq<char>>) -> Seq<Seq<char>> {
    s.map_values(|c: Seq<char>| path_label(c))
}

/// The answer to the Tab key in the path argument of a command.
pub open spec fn path_tab_of(command: Seq<char>, found: Seq<Seq<char>>) -> TabView {
    if found.len() == 0 {
        TabView::Nothing
    } else if found.len() == 1 {
        TabView::Complete(command + " "@ + found[0])
    } else {
        TabView::Hint(join_of(path_labels(found), "  "@))
    }
}

/// The answer to the Tab key in the path argument of a command, given the
/// entries of the directory that the query for the path names.
pub fn path_tab(command: &str, partial: &str, entries: &Vec<DirEntry>) -> (r: Tab)
    ensures
        r@ == path_tab_of(command@, completed_paths(partial@, entries@)),
{
    let found = complete_path(partial, entries);
    let n = found.len();
    proof {
        assert(texts(found@).len() == n);
        if n > 0 {
            assert(texts(found@)[0] == found@[0]@);
        }
    }
    if n == 0 {
        return Tab::Nothing;
    }
    if n == 1 {
        return Tab::Complete(command.to_owned().concat(" ").concat(found[0].as_str()));
    }
    let mut labels: Vec<String> = Vec::new();
    let mut i: usize = 0;
    while i < n
        invariant
            i <= n == found@.len(),
            labels@.len() == i,
            forall|j: int| 0 <= j < i ==> (#[trigger] labels@[j])@ == path_label(found@[j]@),
        decreases n - i,
    {
        labels.push(label_of(found[i].as_str()));
        i += 1;
    }
    proof {
        assert(texts(labels@) == path_labels(texts(found@)));
    }
    Tab::Hint(join(&labels, "  "))
}

// ── Laws ─────────────────────────────────────────────────────────────────────

proof fn lemma_mentions_of(names: Seq<Seq<char>>, lowered: Seq<Seq<char>>, prefix: Seq<char>)
    requires
        names.len() == lowered.len(),
    ensures
        forall|m: Seq<char>| #[trigger]
            mentions_of(names, lowered, prefix).contains(m) <==> exists|j: int|
                0 <= j < names.len() && prefix.is_prefix_of(#[trigger] lowered[j]) && m == "@"@
                    + names[j] + " "@,
        mentions_of(names, lowered, prefix).len() == lowered.filter(
            |l: Seq<char>| prefix.is_prefix_of(l),
        ).len(),
    decreases names.len(),
{
    reveal(Seq::filter);
    let all = mentions_of(names, lowered, prefix);
    if names.len() > 0 {
        let n0 = names.drop_last();
        let l0 = lowered.drop_last();
        let last = names.len() - 1;
        let before = mentions_of(n0, l0, prefix);
        lemma_mentions_of(n0, l0, prefix);
        let new = "@"@ + names.last() + " "@;
        assert forall|m: Seq<char>| #[trigger] all.contains(m) <==> exists|j: int|
            0 <= j < names.len() && prefix.is_prefix_of(#[trigger] lowered[j]) && m == "@"@
                + names[j] + " "@ by {
            if all.contains(m) {
                if before.contains(m) {
                    let j = choose|j: int|
                        0 <= j < n0.len() && prefix.is_prefix_of(#[trigger] l0[j]) && m == "@"@
                            + n0[j] + " "@;
                    assert(lowered[j] == l0[j]);
                } else {
                    assert(lowered[last] == lowered.last());
                }
            }
            if exists|j: int|
                0 <= j < names.len() && prefix.is_prefix_of(#[trigger] lowered[j]) && m == "@"@
                    + names[j] + " "@ {
                let j = choose|j: int|
                    0 <= j < names.len() && prefix.is_prefix_of(#[trigger] lowered[j]) && m
                        == "@"@ + names[j] + " "@;
                if j < last {
                    assert(l0[j] == lowered[j]);
                    assert(before.contains(m));
                    let i = before.index_of(m);
                    assert(all[i] == m);
                } else {
                    assert(all[before.len() as int] == m);
                }
            }
        }
    }
}

/// What is typed behind an `@`, up to the cursor and without a space, can be completed
/// to the names that begin with it, upper and lower case alike: each once for each
/// account, in order, with the `@` before and a space behind.
pub proof fn law_mentions_complete_names(
    before: Seq<char>,
    part: Seq<char>,
    behind: Seq<char>,
    names: Seq<(Uuid, Seq<char>)>,
    m: Seq<char>,
)
    requires
        !part.contains('@'),
        !part.contains(' '),
    ensures
        ({
            let input = before + seq!['@'] + part + behind;
            let k = before.len() + 1 + part.len();
            let found = candidates_of(input, k as int, names);
            &&& mention_start(input, k as int) == Some(before.len() as int)
            &&& found.contains(m) <==> exists|j: int|
                0 <= j < names.len() && lower_of(part).is_prefix_of(
                    lower_of((#[trigger] names[j]).1),
                ) && m == "@"@ + names[j].1 + " "@
            &&& found.len() == all_lower(bare_names(names)).filter(
                |l: Seq<char>| lower_of(part).is_prefix_of(l),
            ).len()
            &&& forall|i: int, j: int|
                0 <= i < j < found.len() ==> lex_le(#[trigger] found[i], #[trigger] found[j])
        }),
{
    let input = before + seq!['@'] + part + behind;
    let k = before.len() + 1 + part.len();
    let head = input.take(k as int);
    let at = before.len() as int;
    assert(head == before + seq!['@'] + part);
    assert forall|j: int| at < j < head.len() implies head[j] != '@' by {
        assert(head[j] == part[j - at - 1]);
        assert(part.contains(part[j - at - 1]));
    }
    lemma_last_at(head, at);
    assert(head.skip(at + 1) == part);
    assert(input.subrange(at + 1, k as int) == part);
    let bare = bare_names(names);
    let lowered = all_lower(bare);
    lemma_mentions_of(bare, lowered, lower_of(part));
    let all = mentions_of(bare, lowered, lower_of(part));
    law_sorted_texts_are_in_order(all);
    let found = candidates_of(input, k as int, names);
    if found.contains(m) {
        assert(all.contains(m));
        let j = choose|j: int|
            0 <= j < bare.len() && lower_of(part).is_prefix_of(#[trigger] lowered[j]) && m == "@"@
                + bare[j] + " "@;
        assert(names[j].1 == bare[j]);
    }
    if exists|j: int|
        0 <= j < names.len() && lower_of(part).is_prefix_of(lower_of((#[trigger] names[j]).1)) && m
            == "@"@ + names[j].1 + " "@ {
        let j = choose|j: int|
            0 <= j < names.len() && lower_of(part).is_prefix_of(lower_of((#[trigger] names[j]).1))
                && m == "@"@ + names[j].1 + " "@;
        assert(lowered[j] == lower_of(bare[j]));
        assert(all.contains(m));
    }
}

/// Without an `@` before the cursor, or with a space behind the last one, nothing is
/// completed.
pub proof fn law_no_mention_without_at(
    before: Seq<char>,
    part: Seq<char>,
    behind: Seq<char>,
    names: Seq<(Uuid, Seq<char>)>,
)
    requires
        !part.contains('@'),
    ensures
        candidates_of(part + behind, part.len() as int, names).len() == 0,
        part.contains(' ') ==> candidates_of(
            before + seq!['@'] + part + behind,
            (before.len() + 1 + part.len()) as int,
            names,
        ).len() == 0,
{
    let whole = part + behind;
    assert(whole.take(part.len() as int) == part);
    assert forall|j: int| -1 < j < part.len() implies part[j] != '@' by {
        assert(part.contains(part[j]));
    }
    lemma_last_at(part, -1);
    if part.contains(' ') {
        let input = before + seq!['@'] + part + behind;
        let k = before.len() + 1 + part.len();
        let head = input.take(k as int);
        let at = before.len() as int;
        assert(head == before + seq!['@'] + part);
        assert forall|j: int| at < j < head.len() implies head[j] != '@' by {
            assert(head[j] == part[j - at - 1]);
            assert(part.contains(part[j - at - 1]));
        }
        lemma_last_at(head, at);
        assert(head.skip(at + 1) == part);
    }
}

/// To complete a path its directory is listed, and the names in it that begin with the
/// last component are put behind the directory. Behind a slash all names match; a bare
/// name is looked for where the client runs.
pub proof fn law_path_is_completed_in_its_directory(
    partial: Seq<char>,
    dir: Seq<char>,
    name: Seq<char>,
)
    requires
        is_component(name),
        dir.len() > 0,
        dir.last() != '/',
        !(dir.len() >= 2 && dir.last() == '.' && dir[dir.len() - 2] == '/'),
    ensures
        partial == dir.push('/') + name ==> query_dir(partial) == dir && query_prefix(partial) == name
            && query_dir_prefix(partial) == dir.push('/'),
        partial == name ==> query_dir(partial) == "."@ && query_prefix(partial) == name
            && query_dir_prefix(partial).len() == 0,
        partial.len() > 0 && partial.last() == '/' ==> query_dir(partial) == partial
            && query_prefix(partial).len() == 0 && query_dir_prefix(partial) == partial,
{
    reveal_strlit("/");
    law_path_has_directory_and_name(dir, name);
    assert(name[name.len() - 1] == name.last());
    assert((dir.push('/') + name).last() == name.last());
    assert(dir + "/"@ == dir.push('/'));
}

/// The completions of a path are its directory with each entry whose name begins with
/// its last component, a slash behind those that are directories, in order.
pub proof fn law_paths_complete_to_entries(
    partial: Seq<char>,
    a: Seq<DirEntry>,
    b: Seq<DirEntry>,
    e: DirEntry,
    file_prefix: Seq<char>,
    dir_prefix: Seq<char>,
)
    ensures
        paths_of(a + b, file_prefix, dir_prefix) == paths_of(a, file_prefix, dir_prefix) + paths_of(
            b,
            file_prefix,
            dir_prefix,
        ),
        paths_of(seq![e], file_prefix, dir_prefix) == (if file_prefix.is_prefix_of(e.name@) {
            seq![
                if e.is_dir {
                    dir_prefix + e.name@ + seq!['/']
                } else {
                    dir_prefix + e.name@
                },
            ]
        } else {
            Seq::empty()
        }),
        completed_paths(partial, a).to_multiset() == paths_of(
            a,
            query_prefix(partial),
            query_dir_prefix(partial),
        ).to_multiset(),
        forall|i: int, j: int|
            0 <= i < j < completed_paths(partial, a).len() ==> lex_le(
                #[trigger] completed_paths(partial, a)[i],
                #[trigger] completed_paths(partial, a)[j],
            ),
    decreases b.len(),
{
    reveal_with_fuel(paths_of, 2);
    reveal_strlit("/");
    reveal_strlit("");
    assert("/"@ == seq!['/']);
    assert(dir_prefix + e.name@ + ""@ == dir_prefix + e.name@);
    assert(seq![e].drop_last() == Seq::<DirEntry>::empty());
    law_sorted_texts_are_in_order(
        paths_of(a, query_prefix(partial), query_dir_prefix(partial)),
    );
    if b.len() == 0 {
        assert(a + b == a);
        assert(paths_of(a, file_prefix, dir_prefix) + Seq::<Seq<char>>::empty() == paths_of(
            a,
            file_prefix,
            dir_prefix,
        ));
    } else {
        law_paths_complete_to_entries(partial, a, b.drop_last(), e, file_prefix, dir_prefix);
        assert((a + b).drop_last() == a + b.drop_last());
    }
}

/// Of several completions the last components are listed, with the slash of a
/// directory; the only one stands behind the command.
pub proof fn law_listed_paths_show_last_components(
    dir: Seq<char>,
    name: Seq<char>,
    command: Seq<char>,
    found: Seq<Seq<char>>,
)
    requires
        is_component(name),
        dir.len() > 0,
        dir.last() != '/',
        !(dir.len() >= 2 && dir.last() == '.' && dir[dir.len() - 2] == '/'),
    ensures
        path_label(dir.push('/') + name) == name,
        path_label((dir.push('/') + name).push('/')) == name.push('/'),
        path_label(name) == name,
        path_label(name.push('/')) == name.push('/'),
        found.len() == 0 ==> path_tab_of(command, found) is Nothing,
        found.len() == 1 ==> path_tab_of(command, found) == TabView::Complete(
            command + " "@ + found[0],
        ),
        found.len() > 1 ==> path_tab_of(command, found) == TabView::Hint(
            join_of(found.map_values(|c: Seq<char>| path_label(c)), "  "@),
        ),
{
    reveal_strlit("/");
    law_path_has_directory_and_name(dir, name);
    let p = dir.push('/') + name;
    assert(name[name.len() - 1] == name.last());
    assert(p.last() == name.last());
    assert(p.push('/').drop_last() == p);
    assert(name.push('/').drop_last() == name);
    assert(name + "/"@ == name.push('/'));
    assert(without_slashes(p) == p);
    assert(without_slashes(name) == name);
    assert(without_slashes(p.push('/')) == p);
    assert(without_slashes(name.push('/')) == name);
}

/// Slashes at the end of a path do not count for its last component, however many.
pub proof fn law_slashes_at_the_end_are_dropped(s: Seq<char>)
    ensures
        without_slashes(s.push('/')) == without_slashes(s),
        without_slashes(s).is_prefix_of(s),
        without_slashes(s).len() > 0 ==> without_slashes(s).last() != '/',
    decreases s.len(),
{
    assert(s.push('/').drop_last() == s);
    if s.len() > 0 && s.last() == '/' {
        law_slashes_at_the_end_are_dropped(s.drop_last());
    }
}

} // verus!
