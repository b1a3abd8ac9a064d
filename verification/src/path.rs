//! Slash-separated path names as text: file name, extension and parent.

use vstd::prelude::*;

use crate::text::{chars_of, rfind, string_of};

verus! {

/// A path without trailing slashes and trailing `.` components. The root and a
/// path that is only `.` stay.
pub open spec fn trimmed(p: Seq<char>) -> Seq<char>
    decreases p.len(),
{
    if p.len() >= 2 && p.last() == '/' {
        trimmed(p.drop_last())
    } else if p.len() >= 2 && p.last() == '.' && p[p.len() - 2] == '/' {
        trimmed(p.drop_last())
    } else {
        p
    }
}

/// The number of characters up to and with the last slash.
pub open spec fn dir_len(p: Seq<char>) -> int
    decreases p.len(),
{
    if p.len() == 0 || p.last() == '/' {
        p.len() as int
    } else {
        dir_len(p.drop_last())
    }
}

/// What follows the last slash of the trimmed path.
pub open spec fn last_component(p: Seq<char>) -> Seq<char> {
    trimmed(p).skip(dir_len(trimmed(p)))
}

/// The name of the file or directory that a path leads to. The empty path, the
/// root, `.` and paths that end in `..` have none.
pub open spec fn file_name_of(p: Seq<char>) -> Option<Seq<char>> {
    let c = last_component(p);
    if c.len() == 0 || c == seq!['.'] || c == seq!['.', '.'] {
        None
    } else {
        Some(c)
    }
}

/// The path without its last component. The empty path and the root have none;
/// a single relative component has the empty path.
pub open spec fn parent_of(p: Seq<char>) -> Option<Seq<char>> {
    let t = trimmed(p);
    if t.len() == 0 || t == seq!['/'] {
        None
    } else {
        Some(trimmed(t.take(dir_len(t))))
    }
}

/// The part of the file name behind its last dot. A name without a dot, or with
/// its only dot in front, has none.
pub open spec fn extension_of(p: Seq<char>) -> Option<Seq<char>> {
    match file_name_of(p) {
        None => None,
        Some(name) => {
            let d = dot_len(name);
            if d <= 1 {
                None
            } else {
                Some(name.skip(d))
            }
        },
    }
}

/// The number of characters up to and with the last dot, or 0 without one.
pub open spec fn dot_len(name: Seq<char>) -> int
    decreases name.len(),
{
    if name.len() == 0 || name.last() == '.' {
        name.len() as int
    } else {
        dot_len(name.drop_last())
    }
}

proof fn lemma_dir_len(p: Seq<char>)
    ensures
        0 <= dir_len(p) <= p.len(),
    decreases p.len(),
{
    if p.len() > 0 {
        lemma_dir_len(p.drop_last());
    }
}

/// The number of leading characters that `trimmed` keeps.
fn trimmed_len(chars: &Vec<char>, end: usize) -> (n: usize)
    requires
        end <= chars@.len(),
    ensures
        n <= end,
        chars@.take(n as int) == trimmed(chars@.take(end as int)),
{
    let mut n: usize = end;
    while n >= 2 && (chars[n - 1] == '/' || (chars[n - 1] == '.' && chars[n - 2] == '/'))
        invariant
            n <= end <= chars@.len(),
            trimmed(chars@.take(n as int)) == trimmed(chars@.take(end as int)),
        decreases n,
    {
        proof {
            assert(chars@.take(n as int).drop_last() == chars@.take(n - 1));
        }
        n -= 1;
    }
    n
}

/// The length of the directory part among the first `end` characters.
fn dir_length(chars: &Vec<char>, end: usize) -> (n: usize)
    requires
        end <= chars@.len(),
    ensures
        n <= end,
        n == dir_len(chars@.take(end as int)),
{
    let mut n: usize = end;
    while n > 0 && chars[n - 1] != '/'
        invariant
            n <= end <= chars@.len(),
            dir_len(chars@.take(n as int)) == dir_len(chars@.take(end as int)),
        decreases n,
    {
        proof {
            assert(chars@.take(n as int).drop_last() == chars@.take(n - 1));
        }
        n -= 1;
    }
    n
}

/// The name of the file or directory that a path leads to.
pub fn file_name(path: &str) -> (r: Option<String>)
    ensures
        (match r {
            Some(s) => file_name_of(path@) == Some(s@),
            None => file_name_of(path@) is None,
        }),
{
    let chars = chars_of(path);
    let n = chars.len();
    proof {
        assert(chars@.take(n as int) == chars@);
    }
    let end = trimmed_len(&chars, n);
    let start = dir_length(&chars, end);
    proof {
        let c = last_component(path@);
        assert(c == chars@.subrange(start as int, end as int));
        if end - start == 1 && chars@[start as int] == '.' {
            assert(c == seq!['.']);
        }
        if c == seq!['.'] || c == seq!['.', '.'] {
            assert(c[0] == '.');
            assert(c.len() == 2 ==> c[1] == '.');
        }
        if end - start == 2 && chars@[start as int] == '.' && chars@[start + 1] == '.' {
            assert(c == seq!['.', '.']);
        }
    }
    if end == start {
        None
    } else if end - start == 1 && chars[start] == '.' {
        None
    } else if end - start == 2 && chars[start] == '.' && chars[start + 1] == '.' {
        None
    } else {
        Some(string_of(&chars, start, end))
    }
}

/// The path without its last component.
pub fn parent(path: &str) -> (r: Option<String>)
    ensures
        (match r {
            Some(s) => parent_of(path@) == Some(s@),
            None => parent_of(path@) is None,
        }),
{
    let chars = chars_of(path);
    let n = chars.len();
    proof {
        assert(chars@.take(n as int) == chars@);
    }
    let end = trimmed_len(&chars, n);
    proof {
        let t = trimmed(path@);
        if end == 1 && chars@[0] == '/' {
            assert(t == seq!['/']);
        }
    }
    if end == 0 || (end == 1 && chars[0] == '/') {
        return None;
    }
    let start = dir_length(&chars, end);
    let stop = trimmed_len(&chars, start);
    proof {
        assert(chars@.take(end as int).take(start as int) == chars@.take(start as int));
        assert(chars@.subrange(0, stop as int) == chars@.take(stop as int));
    }
    Some(string_of(&chars, 0, stop))
}

proof fn lemma_dot_len(name: Seq<char>, d: int)
    requires
        0 <= d <= name.len(),
        d > 0 ==> name[d - 1] == '.',
        forall|j: int| d <= j < name.len() ==> name[j] != '.',
    ensures
        dot_len(name) == d,
    decreases name.len(),
{
    if name.len() > d {
        lemma_dot_len(name.drop_last(), d);
    }
}

/// The part of the file name behind its last dot.
pub fn extension(path: &str) -> (r: Option<String>)
    ensures
        (match r {
            Some(s) => extension_of(path@) == Some(s@),
            None => extension_of(path@) is None,
        }),
{
    match file_name(path) {
        None => None,
        Some(name) => {
            let chars = chars_of(name.as_str());
            let n = chars.len();
            match rfind(&chars, n, '.') {
                None => {
                    proof {
                        assert(chars@.take(n as int) == chars@);
                        lemma_dot_len(chars@, 0);
                    }
                    None
                },
                Some(i) => {
                    proof {
                        assert forall|j: int| i + 1 <= j < n implies chars@[j] != '.' by {
                            assert(chars@.subrange(i + 1, n as int)[j - i - 1] == chars@[j]);
                        }
                        lemma_dot_len(chars@, i + 1);
                    }
                    if i == 0 {
                        None
                    } else {
                        proof {
                            assert(chars@.skip(i + 1) == chars@.subrange(i + 1, n as int));
                        }
                        Some(string_of(&chars, i + 1, n))
                    }
                },
            }
        },
    }
}

/// A path with a relative path behind it.
pub open spec fn joined(dir: Seq<char>, name: Seq<char>) -> Seq<char> {
    if dir.len() == 0 || dir.last() == '/' {
        dir + name
    } else {
        dir.push('/') + name
    }
}

/// A path with a relative path behind it.
pub fn join_path(dir: &str, name: &str) -> (r: String)
    requires
        !(name@.len() > 0 && name@[0] == '/'),
    ensures
        r@ == joined(dir@, name@),
{
    let chars = chars_of(dir);
    let n = chars.len();
    let mut out = dir.to_owned();
    if n > 0 && chars[n - 1] != '/' {
        out.push('/');
    }
    out.append(name);
    out
}

// ── Laws ─────────────────────────────────────────────────────────────────────

/// Whether a text can be a component of a path: it is not empty, holds no slash, and
/// is neither of the two that stand for directories.
pub open spec fn is_component(name: Seq<char>) -> bool {
    name.len() > 0 && !name.contains('/') && name != seq!['.'] && name != seq!['.', '.']
}

proof fn lemma_dir_before_name(head: Seq<char>, name: Seq<char>)
    requires
        !name.contains('/'),
        head.len() == 0 || head.last() == '/',
    ensures
        dir_len(head + name) == head.len(),
    decreases name.len(),
{
    let p = head + name;
    if name.len() == 0 {
        assert(p == head);
    } else {
        let n = name.drop_last();
        assert(name[name.len() - 1] == name.last());
        assert(p.last() == name.last());
        if n.contains('/') {
            let j = n.index_of('/');
            assert(name[j] == '/');
        }
        lemma_dir_before_name(head, n);
        assert(p.drop_last() == head + n);
    }
}

proof fn lemma_component_stays(head: Seq<char>, name: Seq<char>)
    requires
        is_component(name),
        head.len() == 0 || head.last() == '/',
    ensures
        trimmed(head + name) == head + name,
{
    let p = head + name;
    assert(name[name.len() - 1] == name.last());
    assert(p.last() == name.last());
    if name.len() == 1 {
        assert(name == seq![name[0]]);
    } else {
        assert(p[p.len() - 2] == name[name.len() - 2]);
        assert(name.contains(name[name.len() - 2]));
    }
}

/// The last component of a path is its file name, and what stands before its slash
/// is its parent. A bare name has an empty parent.
pub proof fn law_path_has_directory_and_name(dir: Seq<char>, name: Seq<char>)
    requires
        is_component(name),
        dir.len() > 0,
        dir.last() != '/',
        !(dir.len() >= 2 && dir.last() == '.' && dir[dir.len() - 2] == '/'),
    ensures
        file_name_of(dir.push('/') + name) == Some(name),
        parent_of(dir.push('/') + name) == Some(dir),
        file_name_of(name) == Some(name),
        parent_of(name) == Some(Seq::<char>::empty()),
{
    let head = dir.push('/');
    let p = head + name;
    lemma_component_stays(head, name);
    lemma_dir_before_name(head, name);
    assert(p.skip(head.len() as int) == name);
    assert(p.take(head.len() as int) == head);
    assert(head.drop_last() == dir);
    assert(trimmed(dir) == dir);
    assert(trimmed(head) == dir);
    assert(p != seq!['/']) by {
        assert(p.len() >= 3);
    }
    let none = Seq::<char>::empty();
    assert(none + name == name);
    lemma_component_stays(none, name);
    lemma_dir_before_name(none, name);
    assert(name.skip(0) == name);
    assert(name.take(0) == none);
    assert(name != seq!['/']) by {
        if name == seq!['/'] {
            assert(name[0] == '/');
            assert(name.contains('/'));
        }
    }
}

/// Slashes at the end of a path do not count.
pub proof fn law_slash_at_the_end_does_not_count(p: Seq<char>)
    requires
        p.len() > 0,
    ensures
        file_name_of(p.push('/')) == file_name_of(p),
        parent_of(p.push('/')) == parent_of(p),
        extension_of(p.push('/')) == extension_of(p),
{
    assert(p.push('/').drop_last() == p);
}

proof fn lemma_dot_before_extension(head: Seq<char>, ext: Seq<char>)
    requires
        !ext.contains('.'),
        head.len() == 0 || head.last() == '.',
    ensures
        dot_len(head + ext) == head.len(),
    decreases ext.len(),
{
    let p = head + ext;
    if ext.len() == 0 {
        assert(p == head);
    } else {
        let n = ext.drop_last();
        assert(ext[ext.len() - 1] == ext.last());
        assert(p.last() == ext.last());
        if n.contains('.') {
            let j = n.index_of('.');
            assert(ext[j] == '.');
        }
        lemma_dot_before_extension(head, n);
        assert(p.drop_last() == head + n);
    }
}

/// The extension of a file stands behind the last dot of its name; a name without a
/// dot, or with only one at its start, has none.
pub proof fn law_extension_stands_behind_the_last_dot(
    p: Seq<char>,
    stem: Seq<char>,
    ext: Seq<char>,
)
    requires
        !ext.contains('.'),
    ensures
        stem.len() > 0 && file_name_of(p) == Some(stem.push('.') + ext) ==> extension_of(p) == Some(
            ext,
        ),
        file_name_of(p) == Some(ext) ==> extension_of(p) is None,
        file_name_of(p) == Some(seq!['.'] + ext) ==> extension_of(p) is None,
        file_name_of(p) is None ==> extension_of(p) is None,
{
    lemma_dot_before_extension(stem.push('.'), ext);
    assert((stem.push('.') + ext).skip(stem.len() as int + 1) == ext);
    lemma_dot_before_extension(Seq::empty(), ext);
    assert(Seq::<char>::empty() + ext == ext);
    lemma_dot_before_extension(seq!['.'], ext);
}

/// A name is joined to a directory by a single slash.
pub proof fn law_names_are_joined_by_one_slash(dir: Seq<char>, name: Seq<char>)
    ensures
        dir.len() > 0 && dir.last() != '/' ==> joined(dir, name) == dir + seq!['/'] + name,
        dir.len() > 0 && dir.last() == '/' ==> joined(dir, name) == dir + name,
        dir.len() == 0 ==> joined(dir, name) == name,
{
    assert(dir.push('/') + name == dir + seq!['/'] + name);
    if dir.len() == 0 {
        assert(dir + name == name);
    }
}

} // verus!
