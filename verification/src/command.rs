//! The commands of the command line, and the emoji that reactions are made of.

use vstd::prelude::*;

use crate::order::{sort_texts, sorted_texts};
use crate::text::{
    chars_of, find, is_ascii_text, join, join_of, lower, lower_of, same, starts_with, string_of,
    texts, trim, trim_of,
};

verus! {

/// A command as it was typed.
pub enum ColonCmd {
    Quit,
    /// An emoji or a shortcode; empty to show the reactions.
    React(String),
    /// The path of a file.
    Upload(String),
    /// A directory; empty for the usual one.
    Download(String),
    /// A directory; empty for the usual one.
    DownloadAll(String),
}

/// The contents of a command.
pub enum Command {
    Quit,
    React(Seq<char>),
    Upload(Seq<char>),
    Download(Seq<char>),
    DownloadAll(Seq<char>),
}

impl View for ColonCmd {
    type V = Command;

    open spec fn view(&self) -> Command {
        match self {
            ColonCmd::Quit => Command::Quit,
            ColonCmd::React(a) => Command::React(a@),
            ColonCmd::Upload(a) => Command::Upload(a@),
            ColonCmd::Download(a) => Command::Download(a@),
            ColonCmd::DownloadAll(a) => Command::DownloadAll(a@),
        }
    }
}

/// What stands before the first space.
pub open spec fn first_word(s: Seq<char>) -> Seq<char>
    decreases s.len(),
{
    if s.len() == 0 || s[0] == ' ' {
        Seq::empty()
    } else {
        seq![s[0]] + first_word(s.drop_first())
    }
}

proof fn lemma_first_word(s: Seq<char>, n: int)
    requires
        0 <= n <= s.len(),
        !s.take(n).contains(' '),
        n < s.len() ==> s[n] == ' ',
    ensures
        first_word(s) == s.take(n),
    decreases s.len(),
{
    if s.len() > 0 && n > 0 {
        assert(s.take(n)[0] == s[0]);
        let t = s.drop_first();
        let u = t.take(n - 1);
        assert forall|i: int| 0 <= i < n - 1 implies #[trigger] u[i] != ' ' by {
            assert(s.take(n)[i + 1] == t[i]);
        }
        lemma_first_word(t, n - 1);
        assert(seq![s[0]] + t.take(n - 1) == s.take(n));
    } else if s.len() == 0 {
        assert(s.take(n) == Seq::<char>::empty());
    } else {
        assert(s.take(n) == Seq::<char>::empty());
    }
}

/// The command that a name and an argument stand for, if there is one.
pub open spec fn command_named(name: Seq<char>, arg: Seq<char>) -> Option<Command> {
    if name == "quit"@ {
        Some(Command::Quit)
    } else if name == "react"@ {
        Some(Command::React(arg))
    } else if name == "upload"@ {
        Some(Command::Upload(arg))
    } else if name == "download"@ {
        Some(Command::Download(arg))
    } else if name == "download-all"@ {
        Some(Command::DownloadAll(arg))
    } else {
        None
    }
}

/// The command in a text: a colon, the name up to the first space, and the
/// argument without the white space around it.
pub open spec fn command_of(input: Seq<char>) -> Option<Command> {
    let t = trim_of(input);
    if t.len() == 0 || t[0] != ':' {
        None
    } else {
        let s = t.drop_first();
        let name = first_word(s);
        let arg = if name.len() < s.len() {
            trim_of(s.skip(name.len() as int + 1))
        } else {
            Seq::empty()
        };
        command_named(name, arg)
    }
}

fn named_command(name: &str, arg: String) -> (r: Option<ColonCmd>)
    ensures
        r is Some <==> command_named(name@, arg@) is Some,
        r matches Some(c) ==> command_named(name@, arg@) == Some(c@),
{
    proof {
        reveal_strlit("quit");
        reveal_strlit("react");
        reveal_strlit("upload");
        reveal_strlit("download");
        reveal_strlit("download-all");
    }
    if same(name, "quit") {
        Some(ColonCmd::Quit)
    } else if same(name, "react") {
        Some(ColonCmd::React(arg))
    } else if same(name, "upload") {
        Some(ColonCmd::Upload(arg))
    } else if same(name, "download") {
        Some(ColonCmd::Download(arg))
    } else if same(name, "download-all") {
        Some(ColonCmd::DownloadAll(arg))
    } else {
        None
    }
}

/// Reads a command.
pub fn parse_colon_cmd(input: &str) -> (r: Option<ColonCmd>)
    ensures
        r is Some <==> command_of(input@) is Some,
        r matches Some(c) ==> command_of(input@) == Some(c@),
{
    let t = trim(input);
    let chars = chars_of(t.as_str());
    let n = chars.len();
    if n == 0 || chars[0] != ':' {
        return None;
    }
    let rest = chars_of(string_of(&chars, 1, n).as_str());
    let ghost s = rest@;
    proof {
        assert(s == t@.drop_first());
    }
    let m = rest.len();
    match find(&rest, ' ') {
        Some(i) => {
            let name = string_of(&rest, 0, i);
            proof {
                lemma_first_word(s, i as int);
                assert(s.subrange(0, i as int) == s.take(i as int));
                assert(s.subrange(i + 1, m as int) == s.skip(i + 1));
            }
            let arg = trim(string_of(&rest, i + 1, m).as_str());
            named_command(name.as_str(), arg)
        },
        None => {
            let name = string_of(&rest, 0, m);
            proof {
                assert(s.take(m as int) == s);
                lemma_first_word(s, m as int);
                assert(s.subrange(0, m as int) == s);
            }
            let arg = "".to_owned();
            proof {
                reveal_strlit("");
                assert(arg@ == Seq::<char>::empty());
            }
            named_command(name.as_str(), arg)
        },
    }
}

// ── Emoji ────────────────────────────────────────────────────────────────────

/// The emoji with a given shortcode, in the table of the `emojis` crate.
pub uninterp spec fn emoji_of_shortcode(code: Seq<char>) -> Option<Seq<char>>;

/// `emojis::get_by_shortcode`: the emoji, as text, that a GitHub shortcode stands
/// for in the crate's table, if there is one.
#[verifier::external_body]
fn get_by_shortcode(code: &str) -> (r: Option<String>)
    ensures
        (match r {
            Some(e) => emoji_of_shortcode(code@) == Some(e@),
            None => emoji_of_shortcode(code@) is None,
        }),
{
    emojis::get_by_shortcode(code).map(|e| e.to_string())
}

/// The emoji that the argument of a reaction stands for, given what the table
/// has under the argument: a text with a character beyond ASCII stands for itself.
pub open spec fn resolved_emoji(arg: Seq<char>, by_shortcode: Option<Seq<char>>) -> Option<Seq<char>> {
    let a = trim_of(arg);
    if a.len() == 0 {
        None
    } else if !is_ascii_text(a) {
        Some(a)
    } else {
        by_shortcode
    }
}

fn is_ascii(s: &str) -> (r: bool)
    ensures
        r == is_ascii_text(s@),
{
    let chars = chars_of(s);
    let n = chars.len();
    let mut i: usize = 0;
    while i < n
        invariant
            i <= n == chars@.len(),
            chars@ == s@,
            forall|j: int| 0 <= j < i ==> (#[trigger] chars@[j] as u32) < 0x80,
        decreases n - i,
    {
        if chars[i] as u32 >= 0x80 {
            return false;
        }
        i += 1;
    }
    true
}

/// What a reaction's argument, without the white space around it, has to be
/// looked up under; `None` if it need not be.
pub fn shortcode_to_look_up(arg: &str) -> (r: Option<String>)
    ensures
        r is Some <==> trim_of(arg@).len() > 0 && is_ascii_text(trim_of(arg@)),
        r matches Some(c) ==> c@ == trim_of(arg@),
{
    let a = trim(arg);
    if !a.as_str().is_empty() && is_ascii(a.as_str()) {
        Some(a)
    } else {
        None
    }
}

/// The emoji that a reaction's argument stands for, given what the table has
/// under it.
pub fn emoji_for(arg: &str, by_shortcode: Option<String>) -> (r: Option<String>)
    ensures
        (match r {
            Some(e) => resolved_emoji(
                arg@,
                match by_shortcode {
                    Some(b) => Some(b@),
                    None => None,
                },
            ) == Some(e@),
            None => resolved_emoji(
                arg@,
                match by_shortcode {
                    Some(b) => Some(b@),
                    None => None,
                },
            ) is None,
        }),
{
    let a = trim(arg);
    if a.as_str().is_empty() {
        None
    } else if !is_ascii(a.as_str()) {
        Some(a)
    } else {
        by_shortcode
    }
}

/// The emoji that a reaction's argument stands for: itself, if it is not plain
/// ASCII, else the one with that shortcode.
pub fn resolve_emoji(arg: &str) -> (r: Option<String>)
    ensures
        (match r {
            Some(e) => resolved_emoji(arg@, emoji_of_shortcode(trim_of(arg@))) == Some(e@),
            None => resolved_emoji(arg@, emoji_of_shortcode(trim_of(arg@))) is None,
        }),
{
    match shortcode_to_look_up(arg) {
        Some(code) => emoji_for(arg, get_by_shortcode(code.as_str())),
        None => emoji_for(arg, None),
    }
}

/// The shortcodes of the emoji at a place in the table of the `emojis` crate;
/// `None` behind its end.
pub uninterp spec fn shortcodes_at(index: nat) -> Option<Seq<Seq<char>>>;

/// `emojis::iter` and `Emoji::shortcodes`: the GitHub shortcodes of the emoji at
/// a place in the crate's table, in the crate's order; `None` behind the end of
/// the table.
#[verifier::external_body]
fn nth_shortcodes(index: usize) -> (r: Option<Vec<String>>)
    ensures
        (match r {
            Some(codes) => shortcodes_at(index as nat) == Some(texts(codes@)),
            None => shortcodes_at(index as nat) is None,
        }),
{
    emojis::iter().nth(index).map(|e| e.shortcodes().map(|s| s.to_owned()).collect())
}

/// The shortcodes in the table from a place on.
pub open spec fn shortcodes_from(index: nat) -> Seq<Seq<char>>
    decreases usize::MAX - index,
{
    if index >= usize::MAX {
        Seq::empty()
    } else {
        match shortcodes_at(index) {
            Some(codes) => codes + shortcodes_from(index + 1),
            None => Seq::empty(),
        }
    }
}

/// All shortcodes in the table.
pub fn all_shortcodes() -> (r: Vec<String>)
    ensures
        texts(r@) == shortcodes_from(0),
{
    let mut out: Vec<String> = Vec::new();
    let mut i: usize = 0;
    proof {
        assert(texts(out@) + shortcodes_from(0) == shortcodes_from(0));
    }
    while i < usize::MAX
        invariant_except_break
            texts(out@) + shortcodes_from(i as nat) == shortcodes_from(0),
        ensures
            texts(out@) == shortcodes_from(0),
        decreases usize::MAX - i,
    {
        match nth_shortcodes(i) {
            Some(codes) => {
                let ghost before = out@;
                let ghost more = codes@;
                let mut codes = codes;
                out.append(&mut codes);
                proof {
                    let rest = shortcodes_from((i + 1) as nat);
                    assert(texts(out@) == texts(before) + texts(more));
                    assert(texts(before) + (texts(more) + rest) == texts(out@) + rest);
                }
                i += 1;
            },
            None => {
                proof {
                    assert(texts(out@) + Seq::<Seq<char>>::empty() == texts(out@));
                }
                break;
            },
        }
        proof {
            if i == usize::MAX {
                assert(texts(out@) + Seq::<Seq<char>>::empty() == texts(out@));
            }
        }
    }
    out
}

// ── Completion ───────────────────────────────────────────────────────────────

/// Those of the texts that start with a prefix.
pub open spec fn starting_with(s: Seq<Seq<char>>, prefix: Seq<char>) -> Seq<Seq<char>>
    decreases s.len(),
{
    if s.len() == 0 {
        Seq::empty()
    } else if prefix.is_prefix_of(s.last()) {
        starting_with(s.drop_last(), prefix).push(s.last())
    } else {
        starting_with(s.drop_last(), prefix)
    }
}

/// Those of the texts that start with a prefix.
pub fn matching(all: &Vec<String>, prefix: &str) -> (r: Vec<String>)
    ensures
        texts(r@) == starting_with(texts(all@), prefix@),
{
    let n = all.len();
    let ghost s = texts(all@);
    let mut out: Vec<String> = Vec::new();
    let mut i: usize = 0;
    proof {
        assert(texts(out@) == starting_with(s.take(0), prefix@));
    }
    while i < n
        invariant
            i <= n == all@.len(),
            s == texts(all@),
            texts(out@) == starting_with(s.take(i as int), prefix@),
        decreases n - i,
    {
        proof {
            assert(s.take(i + 1).drop_last() == s.take(i as int));
            assert(s[i as int] == all@[i as int]@);
        }
        if starts_with(all[i].as_str(), prefix) {
            let ghost before = out@;
            let one = all[i].clone();
            out.push(one);
            proof {
                assert(texts(out@) == texts(before).push(s[i as int]));
            }
        }
        i += 1;
    }
    proof {
        assert(s.take(n as int) == s);
    }
    out
}

/// What the Tab key does to the command line.
pub enum Tab {
    Nothing,
    /// The command line becomes this.
    Complete(String),
    /// The status bar shows this.
    Hint(String),
}

/// The contents of an answer to the Tab key.
pub enum TabView {
    Nothing,
    Complete(Seq<char>),
    Hint(Seq<char>),
}

impl View for Tab {
    type V = TabView;

    open spec fn view(&self) -> TabView {
        match self {
            Tab::Nothing => TabView::Nothing,
            Tab::Complete(s) => TabView::Complete(s@),
            Tab::Hint(s) => TabView::Hint(s@),
        }
    }
}

/// The answer to the Tab key in the argument of a reaction, given all
/// shortcodes.
pub open spec fn react_tab_of(partial: Seq<char>, all: Seq<Seq<char>>) -> TabView {
    if partial.len() == 0 || !is_ascii_text(partial) {
        TabView::Nothing
    } else {
        let found = sorted_texts(starting_with(all, lower_of(partial)));
        if found.len() == 0 {
            TabView::Nothing
        } else if found.len() == 1 {
            TabView::Complete("react "@ + found[0])
        } else {
            TabView::Hint(join_of(found, "  "@))
        }
    }
}

/// The answer to the Tab key in the argument of a reaction, given all
/// shortcodes.
pub fn react_tab(partial: &str, all: &Vec<String>) -> (r: Tab)
    ensures
        r@ == react_tab_of(partial@, texts(all@)),
{
    if partial.is_empty() || !is_ascii(partial) {
        return Tab::Nothing;
    }
    let found = sort_texts(matching(all, lower(partial).as_str()));
    proof {
        assert(texts(found@).len() == found@.len());
        if found@.len() > 0 {
            assert(texts(found@)[0] == found@[0]@);
        }
    }
    if found.len() == 0 {
        Tab::Nothing
    } else if found.len() == 1 {
        Tab::Complete("react ".to_owned().concat(found[0].as_str()))
    } else {
        Tab::Hint(join(&found, "  "))
    }
}

/// The names of the commands.
pub open spec fn command_names() -> Seq<Seq<char>> {
    seq!["download"@, "download-all"@, "quit"@, "react"@, "upload"@]
}

fn command_list() -> (r: Vec<String>)
    ensures
        texts(r@) == command_names(),
{
    let mut v: Vec<String> = Vec::new();
    v.push("download".to_owned());
    v.push("download-all".to_owned());
    v.push("quit".to_owned());
    v.push("react".to_owned());
    v.push("upload".to_owned());
    proof {
        assert(texts(v@) == command_names());
    }
    v
}

/// Each text with a colon before it.
pub open spec fn with_colons(s: Seq<Seq<char>>) -> Seq<Seq<char>> {
    s.map_values(|t: Seq<char>| ":"@ + t)
}

/// The answer to the Tab key in the name of a command.
pub open spec fn name_tab_of(typed: Seq<char>) -> TabView {
    let found = starting_with(command_names(), lower_of(typed));
    if found.len() == 0 {
        TabView::Nothing
    } else if found.len() == 1 {
        TabView::Complete(found[0])
    } else {
        TabView::Hint(join_of(with_colons(found), "  "@))
    }
}

/// The answer to the Tab key in the name of a command.
pub fn name_tab(typed: &str) -> (r: Tab)
    ensures
        r@ == name_tab_of(typed@),
{
    let found = matching(&command_list(), lower(typed).as_str());
    let n = found.len();
    proof {
        assert(texts(found@).len() == found@.len());
        if n > 0 {
            assert(texts(found@)[0] == found@[0]@);
        }
    }
    if n == 0 {
        return Tab::Nothing;
    }
    if n == 1 {
        return Tab::Complete(found[0].clone());
    }
    let mut labels: Vec<String> = Vec::new();
    let mut i: usize = 0;
    while i < n
        invariant
            i <= n == found@.len(),
            labels@.len() == i,
            forall|j: int| 0 <= j < i ==> (#[trigger] labels@[j])@ == ":"@ + found@[j]@,
        decreases n - i,
    {
        labels.push(":".to_owned().concat(found[i].as_str()));
        i += 1;
    }
    proof {
        assert(texts(labels@) == with_colons(texts(found@)));
    }
    Tab::Hint(join(&labels, "  "))
}

// ── Laws ─────────────────────────────────────────────────────────────────────

/// A command is a colon and a name, with its argument behind a space; white space
/// around the line and around the argument does not count. Nothing else is a command.
pub proof fn law_commands_are_read(
    input: Seq<char>,
    name: Seq<char>,
    arg: Seq<char>,
    bare: bool,
)
    requires
        !name.contains(' '),
        bare ==> trim_of(input) == seq![':'] + name && arg.len() == 0,
        !bare ==> trim_of(input) == seq![':'] + name + seq![' '] + arg,
    ensures
        name == "quit"@ ==> command_of(input) == Some(Command::Quit),
        name == "react"@ ==> command_of(input) == Some(Command::React(trim_of(arg))),
        name == "upload"@ ==> command_of(input) == Some(Command::Upload(trim_of(arg))),
        name == "download"@ ==> command_of(input) == Some(Command::Download(trim_of(arg))),
        name == "download-all"@ ==> command_of(input) == Some(Command::DownloadAll(trim_of(arg))),
        name != "quit"@ && name != "react"@ && name != "upload"@ && name != "download"@ && name
            != "download-all"@ ==> command_of(input) is None,
{
    reveal_strlit("quit");
    reveal_strlit("react");
    reveal_strlit("upload");
    reveal_strlit("download");
    reveal_strlit("download-all");
    let t = trim_of(input);
    let s = t.drop_first();
    let n = name.len() as int;
    assert(t[0] == ':');
    if bare {
        assert(s == name);
        assert(s.take(n) == name);
        lemma_first_word(s, n);
        assert(arg == Seq::<char>::empty());
    } else {
        assert(s == name + seq![' '] + arg);
        assert(s.take(n) == name);
        lemma_first_word(s, n);
        assert(s.skip(n + 1) == arg);
    }
}

/// A line that does not begin with a colon is no command.
pub proof fn law_no_command_without_colon(input: Seq<char>)
    requires
        trim_of(input).len() == 0 || trim_of(input)[0] != ':',
    ensures
        command_of(input) is None,
{
}

/// What a reaction's argument stands for: with a character beyond ASCII it is an
/// emoji itself, else a shortcode; a blank one stands for nothing.
pub proof fn law_emoji_or_shortcode(arg: Seq<char>, by_shortcode: Option<Seq<char>>, i: int)
    ensures
        trim_of(arg).len() == 0 ==> resolved_emoji(arg, by_shortcode) is None,
        0 <= i < trim_of(arg).len() && trim_of(arg)[i] as u32 >= 0x80 ==> resolved_emoji(
            arg,
            by_shortcode,
        ) == Some(trim_of(arg)),
        trim_of(arg).len() > 0 && (forall|j: int|
            0 <= j < trim_of(arg).len() ==> (#[trigger] trim_of(arg)[j] as u32) < 0x80)
            ==> resolved_emoji(arg, by_shortcode) == by_shortcode,
{
}

/// Each code of the table is among all shortcodes.
pub proof fn law_table_is_read_whole(index: nat, n: nat, code: Seq<char>)
    requires
        index <= n < usize::MAX,
        forall|m: nat| index <= m <= n ==> (#[trigger] shortcodes_at(m)) is Some,
        shortcodes_at(n)->0.contains(code),
    ensures
        shortcodes_from(index).contains(code),
    decreases n - index,
{
    assert(shortcodes_at(index) is Some);
    let codes = shortcodes_at(index)->0;
    let rest = shortcodes_from(index + 1);
    if index == n {
        let i = codes.index_of(code);
        assert((codes + rest)[i] == code);
    } else {
        law_table_is_read_whole(index + 1, n, code);
        let i = rest.index_of(code);
        assert((codes + rest)[codes.len() + i] == code);
    }
}

/// Of a list those texts are kept that begin with the prefix, in their order.
pub proof fn law_matches_begin_with_the_prefix(
    a: Seq<Seq<char>>,
    b: Seq<Seq<char>>,
    x: Seq<char>,
    prefix: Seq<char>,
)
    ensures
        starting_with(a + b, prefix) == starting_with(a, prefix) + starting_with(b, prefix),
        starting_with(seq![x], prefix) == (if prefix.is_prefix_of(x) {
            seq![x]
        } else {
            Seq::empty()
        }),
    decreases b.len(),
{
    reveal_with_fuel(starting_with, 2);
    assert(seq![x].drop_last() == Seq::<Seq<char>>::empty());
    assert(Seq::<Seq<char>>::empty().push(x) == seq![x]);
    if b.len() == 0 {
        assert(a + b == a);
        assert(starting_with(a, prefix) + Seq::<Seq<char>>::empty() == starting_with(a, prefix));
    } else {
        law_matches_begin_with_the_prefix(a, b.drop_last(), x, prefix);
        assert((a + b).drop_last() == a + b.drop_last());
    }
}

/// Tab behind `react` completes the only shortcode that begins with what was typed,
/// in lower case; of several it lists them in order.
pub proof fn law_shortcodes_are_completed(partial: Seq<char>, all: Seq<Seq<char>>)
    ensures
        ({
            let found = sorted_texts(starting_with(all, lower_of(partial)));
            let plain = partial.len() > 0 && forall|j: int|
                0 <= j < partial.len() ==> (#[trigger] partial[j] as u32) < 0x80;
            &&& !plain ==> react_tab_of(partial, all) is Nothing
            &&& plain && found.len() == 0 ==> react_tab_of(partial, all) is Nothing
            &&& plain && found.len() == 1 ==> react_tab_of(partial, all) == TabView::Complete(
                "react "@ + found[0],
            )
            &&& plain && found.len() > 1 ==> react_tab_of(partial, all) == TabView::Hint(
                join_of(found, "  "@),
            )
        }),
{
}

/// The names that Tab completes are those of the commands that there are.
pub proof fn law_every_command_is_completed(name: Seq<char>, arg: Seq<char>)
    ensures
        command_names().contains(name) <==> command_named(name, arg) is Some,
        command_names().len() == 5,
        command_names().no_duplicates(),
{
    reveal_strlit("quit");
    reveal_strlit("react");
    reveal_strlit("upload");
    reveal_strlit("download");
    reveal_strlit("download-all");
    let n = command_names();
    assert(n[0] == "download"@ && n[1] == "download-all"@ && n[2] == "quit"@ && n[3] == "react"@
        && n[4] == "upload"@);
    assert forall|i: int, j: int| 0 <= i < n.len() && 0 <= j < n.len() && i != j implies n[i]
        != n[j] by {
        assert(n[i].len() != n[j].len());
    }
    if command_named(name, arg) is Some {
        if name == "quit"@ {
            assert(n.contains(n[2]));
        } else if name == "react"@ {
            assert(n.contains(n[3]));
        } else if name == "upload"@ {
            assert(n.contains(n[4]));
        } else if name == "download"@ {
            assert(n.contains(n[0]));
        } else {
            assert(n.contains(n[1]));
        }
    }
}

/// Tab behind the colon completes the only command that begins with what was typed,
/// in lower case; of several it lists them.
pub proof fn law_command_names_are_completed(typed: Seq<char>)
    ensures
        ({
            let found = starting_with(command_names(), lower_of(typed));
            &&& found.len() == 0 ==> name_tab_of(typed) is Nothing
            &&& found.len() == 1 ==> name_tab_of(typed) == TabView::Complete(found[0])
            &&& found.len() > 1 ==> name_tab_of(typed) == TabView::Hint(
                join_of(found.map_values(|t: Seq<char>| ":"@ + t), "  "@),
            )
        }),
{
}

} // verus!
