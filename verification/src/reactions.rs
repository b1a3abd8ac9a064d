//! Who reacted to which message with which emoji.

use vstd::prelude::*;

use crate::ids::Uuid;
use crate::order::{lemma_lex_antisymmetric, lemma_lex_total, lemma_lex_transitive, lex_le, text_le};
use crate::text::{decimal, decimal_of, join, join_of, same, texts};

verus! {

/// The senders who reacted with one emoji.
pub struct EmojiReactions {
    pub emoji: String,
    pub senders: Vec<Uuid>,
}

/// The reactions to one message.
pub struct MessageReactions {
    pub target_ts: u64,
    pub emojis: Vec<EmojiReactions>,
}

/// The reactions in a thread by the time stamp of the message, the emoji and
/// the sender.
pub struct ReactionMap {
    pub entries: Vec<MessageReactions>,
}

/// A reaction given or, with `remove`, taken back.
pub struct ReactionEvent {
    pub sender: Uuid,
    pub emoji: String,
    pub remove: bool,
    pub target_ts: u64,
}

/// A reaction event with its emoji as text.
pub struct Reacting {
    pub sender: Uuid,
    pub emoji: Seq<char>,
    pub remove: bool,
    pub target_ts: u64,
}

impl View for ReactionEvent {
    type V = Reacting;

    open spec fn view(&self) -> Reacting {
        Reacting {
            sender: self.sender,
            emoji: self.emoji@,
            remove: self.remove,
            target_ts: self.target_ts,
        }
    }
}

/// The contents of a list of events.
pub open spec fn event_views(events: Seq<ReactionEvent>) -> Seq<Reacting> {
    events.map_values(|e: ReactionEvent| e@)
}

/// Whether a list of emoji is sorted, names each emoji once, and names each
/// sender once and at least one sender.
pub open spec fn emojis_wf(v: Seq<EmojiReactions>) -> bool {
    &&& forall|i: int, j: int|
        0 <= i < j < v.len() ==> lex_le((#[trigger] v[i]).emoji@, (#[trigger] v[j]).emoji@)
            && v[i].emoji@ != v[j].emoji@
    &&& forall|i: int|
        0 <= i < v.len() ==> (#[trigger] v[i]).senders@.len() > 0 && v[i].senders@.no_duplicates()
}

/// Whether a sender reacted with an emoji.
pub open spec fn in_emojis(v: Seq<EmojiReactions>, emoji: Seq<char>, sender: Uuid) -> bool {
    exists|j: int|
        0 <= j < v.len() && (#[trigger] v[j]).emoji@ == emoji && v[j].senders@.contains(sender)
}

impl ReactionMap {
    /// Whether the messages are sorted, each is there once, and each has a
    /// reaction.
    pub open spec fn wf(self) -> bool {
        &&& forall|i: int, j: int|
            0 <= i < j < self.entries@.len() ==> (#[trigger] self.entries@[i]).target_ts < (
            #[trigger] self.entries@[j]).target_ts
        &&& forall|i: int|
            0 <= i < self.entries@.len() ==> (#[trigger] self.entries@[i]).emojis@.len() > 0
                && emojis_wf(self.entries@[i].emojis@)
    }

    /// The reactions to a message.
    pub open spec fn at(self, ts: u64) -> Seq<EmojiReactions> {
        if exists|i: int|
            0 <= i < self.entries@.len() && (#[trigger] self.entries@[i]).target_ts == ts {
            let i = choose|i: int|
                0 <= i < self.entries@.len() && (#[trigger] self.entries@[i]).target_ts == ts;
            self.entries@[i].emojis@
        } else {
            Seq::empty()
        }
    }

    /// Whether a sender's reaction with an emoji to a message stands.
    pub open spec fn has(self, ts: u64, emoji: Seq<char>, sender: Uuid) -> bool {
        exists|i: int|
            0 <= i < self.entries@.len() && (#[trigger] self.entries@[i]).target_ts == ts
                && in_emojis(self.entries@[i].emojis@, emoji, sender)
    }
}

fn find_sender(senders: &Vec<Uuid>, sender: Uuid) -> (r: Option<usize>)
    ensures
        r is Some <==> senders@.contains(sender),
        r matches Some(k) ==> k < senders@.len() && senders@[k as int] == sender,
{
    let n = senders.len();
    let mut k: usize = 0;
    while k < n
        invariant
            k <= n == senders@.len(),
            forall|m: int| 0 <= m < k ==> senders@[m] != sender,
        decreases n - k,
    {
        if senders[k] == sender {
            return Some(k);
        }
        k += 1;
    }
    None
}

/// The first position whose emoji does not come before the given one.
fn emoji_position(v: &Vec<EmojiReactions>, emoji: &str) -> (p: usize)
    requires
        emojis_wf(v@),
    ensures
        p <= v@.len(),
        forall|i: int| 0 <= i < p ==> !lex_le(emoji@, (#[trigger] v@[i]).emoji@),
        forall|i: int| p <= i < v@.len() ==> lex_le(emoji@, (#[trigger] v@[i]).emoji@),
{
    let n = v.len();
    let mut p: usize = 0;
    while p < n && !text_le(emoji, v[p].emoji.as_str())
        invariant
            p <= n == v@.len(),
            emojis_wf(v@),
            forall|i: int| 0 <= i < p ==> !lex_le(emoji@, (#[trigger] v@[i]).emoji@),
        decreases n - p,
    {
        p += 1;
    }
    proof {
        assert forall|i: int| p <= i < v@.len() implies lex_le(
            emoji@,
            (#[trigger] v@[i]).emoji@,
        ) by {
            if i > p {
                assert(lex_le(v@[p as int].emoji@, v@[i].emoji@));
                lemma_lex_transitive(emoji@, v@[p as int].emoji@, v@[i].emoji@);
            }
        }
    }
    p
}

/// Records or erases a sender's reaction with an emoji.
fn set_sender(v: &mut Vec<EmojiReactions>, emoji: &str, sender: Uuid, on: bool)
    requires
        emojis_wf(old(v)@),
    ensures
        emojis_wf(final(v)@),
        forall|e: Seq<char>, s: Uuid| #[trigger]
            in_emojis(final(v)@, e, s) == (if e == emoji@ && s == sender {
                on
            } else {
                in_emojis(old(v)@, e, s)
            }),
{
    let p = emoji_position(v, emoji);
    let ghost v0 = v@;
    let found = p < v.len() && same(v[p].emoji.as_str(), emoji);
    proof {
        // No other position holds this emoji.
        assert forall|i: int| 0 <= i < v0.len() && (#[trigger] v0[i]).emoji@ == emoji@ implies i
            == p && found by {
            lemma_lex_total(emoji@, emoji@);
            if i > p {
                assert(lex_le(v0[p as int].emoji@, v0[i].emoji@));
                assert(lex_le(emoji@, v0[p as int].emoji@));
                lemma_lex_antisymmetric(v0[p as int].emoji@, emoji@);
            }
        }
    }
    if found {
        let at = find_sender(&v[p].senders, sender);
        match at {
            Some(k) => {
                if !on {
                    let mut senders: Vec<Uuid> = Vec::new();
                    std::mem::swap(&mut v[p].senders, &mut senders);
                    let ghost s0 = senders@;
                    senders.remove(k);
                    proof {
                        lemma_removed(s0, k as int);
                    }
                    if senders.len() == 0 {
                        v.remove(p);
                        proof {
                            assert forall|e: Seq<char>, s: Uuid| #[trigger]
                                in_emojis(v@, e, s) == (if e == emoji@ && s == sender {
                                    on
                                } else {
                                    in_emojis(v0, e, s)
                                }) by {
                                if in_emojis(v0, e, s) && !(e == emoji@ && s == sender) {
                                    let j = choose|j: int|
                                        0 <= j < v0.len() && (#[trigger] v0[j]).emoji@ == e
                                            && v0[j].senders@.contains(s);
                                    if j == p {
                                        assert(s0.remove(k as int).contains(s));
                                    } else if j < p {
                                        assert(v@[j] == v0[j]);
                                    } else {
                                        assert(v@[j - 1] == v0[j]);
                                    }
                                }
                                if in_emojis(v@, e, s) {
                                    let j = choose|j: int|
                                        0 <= j < v@.len() && (#[trigger] v@[j]).emoji@ == e
                                            && v@[j].senders@.contains(s);
                                    let j0 = if j < p { j } else { j + 1 };
                                    assert(v@[j] == v0[j0]);
                                }
                            }
                        }
                    } else {
                        let ghost s1 = senders@;
                        std::mem::swap(&mut v[p].senders, &mut senders);
                        proof {
                            lemma_senders_changed(v0, v@, p as int, s1, emoji@, sender, on);
                        }
                    }
                }
            },
            None => {
                if on {
                    let ghost s0 = v@[p as int].senders@;
                    v[p].senders.push(sender);
                    proof {
                        lemma_pushed(s0, sender);
                        lemma_senders_changed(v0, v@, p as int, s0.push(sender), emoji@, sender, on);
                    }
                }
            },
        }
        proof {
            if on == (at is Some) {
                assert(v@ == v0);
            }
        }
    } else if on {
        let mut senders: Vec<Uuid> = Vec::new();
        senders.push(sender);
        let entry = EmojiReactions { emoji: emoji.to_owned(), senders };
        v.insert(p, entry);
        proof {
            assert(entry.senders@ == seq![sender]);
            assert(entry.senders@.contains(sender)) by {
                assert(entry.senders@[0] == sender);
            }
            assert forall|i: int, j: int| 0 <= i < j < v@.len() implies lex_le(
                (#[trigger] v@[i]).emoji@,
                (#[trigger] v@[j]).emoji@,
            ) && v@[i].emoji@ != v@[j].emoji@ by {
                let i0 = if i < p { i } else { i - 1 };
                let j0 = if j < p { j } else { j - 1 };
                if i != p && j != p {
                    assert(v@[i] == v0[i0] && v@[j] == v0[j0]);
                } else if i == p {
                    assert(v@[j] == v0[j0]);
                } else {
                    assert(v@[i] == v0[i]);
                    lemma_lex_total(emoji@, v0[i].emoji@);
                }
            }
            assert forall|i: int| 0 <= i < v@.len() implies (#[trigger] v@[i]).senders@.len() > 0
                && v@[i].senders@.no_duplicates() by {
                if i != p {
                    let i0 = if i < p { i } else { i - 1 };
                    assert(v@[i] == v0[i0]);
                }
            }
            assert forall|e: Seq<char>, s: Uuid| #[trigger] in_emojis(v@, e, s) == (if e == emoji@
                && s == sender {
                on
            } else {
                in_emojis(v0, e, s)
            }) by {
                if e == emoji@ && s == sender {
                    assert(v@[p as int].emoji@ == e);
                }
                if in_emojis(v0, e, s) {
                    let j = choose|j: int|
                        0 <= j < v0.len() && (#[trigger] v0[j]).emoji@ == e
                            && v0[j].senders@.contains(s);
                    let j1 = if j < p { j } else { j + 1 };
                    assert(v@[j1] == v0[j]);
                }
                if in_emojis(v@, e, s) && !(e == emoji@ && s == sender) {
                    let j = choose|j: int|
                        0 <= j < v@.len() && (#[trigger] v@[j]).emoji@ == e
                            && v@[j].senders@.contains(s);
                    if j != p {
                        let j0 = if j < p { j } else { j - 1 };
                        assert(v@[j] == v0[j0]);
                    }
                }
            }
        }
    }
}

proof fn lemma_removed(s: Seq<Uuid>, k: int)
    requires
        s.no_duplicates(),
        0 <= k < s.len(),
    ensures
        s.remove(k).no_duplicates(),
        forall|x: Uuid| #[trigger] s.remove(k).contains(x) <==> s.contains(x) && x != s[k],
{
    let t = s.remove(k);
    assert forall|x: Uuid| #[trigger] t.contains(x) <==> s.contains(x) && x != s[k] by {
        if t.contains(x) {
            let i = choose|i: int| 0 <= i < t.len() && t[i] == x;
            let i0 = if i < k { i } else { i + 1 };
            assert(s[i0] == x);
        }
        if s.contains(x) && x != s[k] {
            let i = choose|i: int| 0 <= i < s.len() && s[i] == x;
            let i1 = if i < k { i } else { i - 1 };
            assert(t[i1] == x);
        }
    }
}

proof fn lemma_pushed(s: Seq<Uuid>, x: Uuid)
    requires
        s.no_duplicates(),
        !s.contains(x),
    ensures
        s.push(x).no_duplicates(),
        forall|y: Uuid| #[trigger] s.push(x).contains(y) <==> s.contains(y) || y == x,
{
    let t = s.push(x);
    assert forall|y: Uuid| #[trigger] t.contains(y) <==> s.contains(y) || y == x by {
        if s.contains(y) {
            let i = choose|i: int| 0 <= i < s.len() && s[i] == y;
            assert(t[i] == y);
        }
        if y == x {
            assert(t[s.len() as int] == y);
        }
    }
}

/// Replacing the senders at one position changes one answer.
proof fn lemma_senders_changed(
    v0: Seq<EmojiReactions>,
    v1: Seq<EmojiReactions>,
    p: int,
    senders: Seq<Uuid>,
    emoji: Seq<char>,
    sender: Uuid,
    on: bool,
)
    requires
        emojis_wf(v0),
        0 <= p < v0.len() == v1.len(),
        v0[p].emoji@ == emoji,
        v1[p].emoji == v0[p].emoji,
        v1[p].senders@ == senders,
        senders.len() > 0,
        senders.no_duplicates(),
        forall|i: int| 0 <= i < v0.len() && i != p ==> v1[i] == v0[i],
        forall|x: Uuid| #[trigger]
            senders.contains(x) <==> (if x == sender {
                on
            } else {
                v0[p].senders@.contains(x)
            }),
    ensures
        emojis_wf(v1),
        forall|e: Seq<char>, s: Uuid| #[trigger]
            in_emojis(v1, e, s) == (if e == emoji && s == sender {
                on
            } else {
                in_emojis(v0, e, s)
            }),
{
    assert forall|i: int, j: int| 0 <= i < j < v1.len() implies lex_le(
        (#[trigger] v1[i]).emoji@,
        (#[trigger] v1[j]).emoji@,
    ) && v1[i].emoji@ != v1[j].emoji@ by {
        assert(v1[i].emoji == v0[i].emoji && v1[j].emoji == v0[j].emoji);
    }
    assert forall|e: Seq<char>, s: Uuid| #[trigger] in_emojis(v1, e, s) == (if e == emoji && s
        == sender {
        on
    } else {
        in_emojis(v0, e, s)
    }) by {
        if in_emojis(v0, e, s) {
            let j = choose|j: int|
                0 <= j < v0.len() && (#[trigger] v0[j]).emoji@ == e && v0[j].senders@.contains(s);
            if j != p {
                assert(v1[j] == v0[j]);
                if e == emoji {
                    assert(v0[p].emoji@ == v0[j].emoji@);
                }
            } else if s != sender {
                assert(v1[p].senders@.contains(s));
            }
        }
        if in_emojis(v1, e, s) {
            let j = choose|j: int|
                0 <= j < v1.len() && (#[trigger] v1[j]).emoji@ == e && v1[j].senders@.contains(s);
            if j != p {
                assert(v1[j] == v0[j]);
                if e == emoji {
                    assert(v0[p].emoji@ == v0[j].emoji@);
                }
            } else if s != sender {
                assert(v0[p].senders@.contains(s));
            }
        }
        if e == emoji && s == sender && on {
            assert(v1[p].senders@.contains(s));
        }
    }
}

/// Whether a sender's reaction stands after a list of events in the order of
/// time: whether the last event of that sender with that emoji on that message
/// gave it.
pub open spec fn reacted(events: Seq<Reacting>, ts: u64, emoji: Seq<char>, sender: Uuid) -> bool
    decreases events.len(),
{
    if events.len() == 0 {
        false
    } else {
        let e = events.last();
        if e.target_ts == ts && e.emoji == emoji && e.sender == sender {
            !e.remove
        } else {
            reacted(events.drop_last(), ts, emoji, sender)
        }
    }
}

impl ReactionMap {
    /// A map without reactions.
    pub fn new() -> (r: ReactionMap)
        ensures
            r.wf(),
            forall|t: u64, e: Seq<char>, s: Uuid| !(#[trigger] r.has(t, e, s)),
    {
        ReactionMap { entries: Vec::new() }
    }

    /// The first position whose time stamp does not come before the given one.
    fn position(&self, ts: u64) -> (p: usize)
        requires
            self.wf(),
        ensures
            p <= self.entries@.len(),
            forall|i: int| 0 <= i < p ==> (#[trigger] self.entries@[i]).target_ts < ts,
            forall|i: int|
                p <= i < self.entries@.len() ==> (#[trigger] self.entries@[i]).target_ts >= ts,
            forall|i: int|
                p < i < self.entries@.len() ==> (#[trigger] self.entries@[i]).target_ts > ts,
    {
        let n = self.entries.len();
        let mut p: usize = 0;
        while p < n && self.entries[p].target_ts < ts
            invariant
                p <= n == self.entries@.len(),
                forall|i: int| 0 <= i < p ==> (#[trigger] self.entries@[i]).target_ts < ts,
            decreases n - p,
        {
            p += 1;
        }
        proof {
            assert forall|i: int| p < i < self.entries@.len() implies (
            #[trigger] self.entries@[i]).target_ts > ts by {
                assert(self.entries@[p as int].target_ts < self.entries@[i].target_ts);
            }
        }
        p
    }

    /// The reactions to a message, if it has any.
    pub fn get(&self, ts: u64) -> (r: Option<&Vec<EmojiReactions>>)
        requires
            self.wf(),
        ensures
            r is Some <==> self.at(ts).len() > 0,
            r matches Some(v) ==> {
                &&& v@ == self.at(ts)
                &&& v@.len() > 0
                &&& emojis_wf(v@)
                &&& forall|e: Seq<char>, s: Uuid| #[trigger] in_emojis(v@, e, s) == self.has(ts, e, s)
            },
            r is None ==> forall|e: Seq<char>, s: Uuid| !(#[trigger] self.has(ts, e, s)),
    {
        let p = self.position(ts);
        if p < self.entries.len() && self.entries[p].target_ts == ts {
            proof {
                assert(self.entries@[p as int].target_ts == ts);
                assert forall|e: Seq<char>, s: Uuid| #[trigger]
                    in_emojis(self.entries@[p as int].emojis@, e, s) == self.has(ts, e, s) by {
                    if self.has(ts, e, s) {
                        let i = choose|i: int|
                            0 <= i < self.entries@.len() && (#[trigger] self.entries@[i]).target_ts
                                == ts && in_emojis(self.entries@[i].emojis@, e, s);
                        assert(i == p);
                    }
                }
            }
            Some(&self.entries[p].emojis)
        } else {
            None
        }
    }

    /// Whether a sender's reaction with an emoji to a message stands.
    pub fn contains(&self, ts: u64, emoji: &str, sender: Uuid) -> (r: bool)
        requires
            self.wf(),
        ensures
            r == self.has(ts, emoji@, sender),
    {
        match self.get(ts) {
            None => false,
            Some(v) => {
                let n = v.len();
                let mut i: usize = 0;
                while i < n
                    invariant
                        i <= n == v@.len(),
                        in_emojis(v@, emoji@, sender) == self.has(ts, emoji@, sender),
                        forall|j: int|
                            0 <= j < i ==> !((#[trigger] v@[j]).emoji@ == emoji@
                                && v@[j].senders@.contains(sender)),
                    decreases n - i,
                {
                    if same(v[i].emoji.as_str(), emoji) && find_sender(
                        &v[i].senders,
                        sender,
                    ).is_some() {
                        proof {
                            assert(in_emojis(v@, emoji@, sender));
                        }
                        return true;
                    }
                    i += 1;
                }
                proof {
                    assert(!in_emojis(v@, emoji@, sender));
                }
                false
            },
        }
    }

    /// Records or erases a reaction.
    pub fn set(&mut self, ts: u64, emoji: &str, sender: Uuid, on: bool)
        requires
            old(self).wf(),
        ensures
            final(self).wf(),
            forall|t: u64, e: Seq<char>, s: Uuid| #[trigger]
                final(self).has(t, e, s) == (if t == ts && e == emoji@ && s == sender {
                    on
                } else {
                    old(self).has(t, e, s)
                }),
    {
        let p = self.position(ts);
        let ghost m0 = *self;
        let ghost v0 = self.entries@;
        let found = p < self.entries.len() && self.entries[p].target_ts == ts;
        if found {
            let ghost e0 = v0[p as int].emojis@;
            let mut emojis: Vec<EmojiReactions> = Vec::new();
            std::mem::swap(&mut self.entries[p].emojis, &mut emojis);
            set_sender(&mut emojis, emoji, sender, on);
            if emojis.len() == 0 {
                let ghost e1 = emojis@;
                self.entries.remove(p);
                proof {
                    assert forall|e: Seq<char>, s: Uuid| !in_emojis(e1, e, s) by {}
                    assert forall|t: u64, e: Seq<char>, s: Uuid| #[trigger] self.has(t, e, s) == (if t
                        == ts && e == emoji@ && s == sender {
                        on
                    } else {
                        m0.has(t, e, s)
                    }) by {
                        assert(in_emojis(e1, e, s) == (if e == emoji@ && s == sender {
                            on
                        } else {
                            in_emojis(e0, e, s)
                        }));
                        if m0.has(t, e, s) {
                            let i = choose|i: int|
                                0 <= i < v0.len() && (#[trigger] v0[i]).target_ts == t && in_emojis(
                                    v0[i].emojis@,
                                    e,
                                    s,
                                );
                            if i != p {
                                let i1 = if i < p { i } else { i - 1 };
                                assert(self.entries@[i1] == v0[i]);
                            }
                        }
                        if self.has(t, e, s) {
                            let i = choose|i: int|
                                0 <= i < self.entries@.len() && (
                                #[trigger] self.entries@[i]).target_ts == t && in_emojis(
                                    self.entries@[i].emojis@,
                                    e,
                                    s,
                                );
                            let i0 = if i < p { i } else { i + 1 };
                            assert(self.entries@[i] == v0[i0]);
                        }
                    }
                }
            } else {
                let ghost e1 = emojis@;
                std::mem::swap(&mut self.entries[p].emojis, &mut emojis);
                proof {
                    assert(self.entries@[p as int].emojis@ == e1);
                    assert forall|i: int| 0 <= i < v0.len() && i != p implies self.entries@[i]
                        == v0[i] by {}
                    assert forall|t: u64, e: Seq<char>, s: Uuid| #[trigger] self.has(t, e, s) == (if t
                        == ts && e == emoji@ && s == sender {
                        on
                    } else {
                        m0.has(t, e, s)
                    }) by {
                        assert(in_emojis(e1, e, s) == (if e == emoji@ && s == sender {
                            on
                        } else {
                            in_emojis(e0, e, s)
                        }));
                        if m0.has(t, e, s) {
                            let i = choose|i: int|
                                0 <= i < v0.len() && (#[trigger] v0[i]).target_ts == t && in_emojis(
                                    v0[i].emojis@,
                                    e,
                                    s,
                                );
                            assert(self.entries@[i].target_ts == t);
                        }
                        if self.has(t, e, s) {
                            let i = choose|i: int|
                                0 <= i < self.entries@.len() && (
                                #[trigger] self.entries@[i]).target_ts == t && in_emojis(
                                    self.entries@[i].emojis@,
                                    e,
                                    s,
                                );
                            assert(v0[i].target_ts == t);
                        }
                        if t == ts && e == emoji@ && s == sender && on {
                            assert(self.entries@[p as int].target_ts == t);
                        }
                    }
                }
            }
        } else if on {
            let mut emojis: Vec<EmojiReactions> = Vec::new();
            set_sender(&mut emojis, emoji, sender, true);
            let ghost e1 = emojis@;
            proof {
                assert(in_emojis(e1, emoji@, sender));
                let empty = Seq::<EmojiReactions>::empty();
                assert forall|e: Seq<char>, s: Uuid| !in_emojis(empty, e, s) by {}
            }
            self.entries.insert(p, MessageReactions { target_ts: ts, emojis });
            proof {
                assert forall|i: int, j: int| 0 <= i < j < self.entries@.len() implies (
                #[trigger] self.entries@[i]).target_ts < (#[trigger] self.entries@[j]).target_ts by {
                    let i0 = if i < p { i } else { i - 1 };
                    let j0 = if j < p { j } else { j - 1 };
                    if i != p {
                        assert(self.entries@[i] == v0[i0]);
                    }
                    if j != p {
                        assert(self.entries@[j] == v0[j0]);
                    }
                }
                assert forall|i: int| 0 <= i < self.entries@.len() implies (
                #[trigger] self.entries@[i]).emojis@.len() > 0 && emojis_wf(
                    self.entries@[i].emojis@,
                ) by {
                    if i != p {
                        let i0 = if i < p { i } else { i - 1 };
                        assert(self.entries@[i] == v0[i0]);
                    }
                }
                assert forall|t: u64, e: Seq<char>, s: Uuid| #[trigger] self.has(t, e, s) == (if t
                    == ts && e == emoji@ && s == sender {
                    on
                } else {
                    m0.has(t, e, s)
                }) by {
                    if m0.has(t, e, s) {
                        let i = choose|i: int|
                            0 <= i < v0.len() && (#[trigger] v0[i]).target_ts == t && in_emojis(
                                v0[i].emojis@,
                                e,
                                s,
                            );
                        let i1 = if i < p { i } else { i + 1 };
                        assert(self.entries@[i1] == v0[i]);
                    }
                    if self.has(t, e, s) {
                        let i = choose|i: int|
                            0 <= i < self.entries@.len() && (#[trigger] self.entries@[i]).target_ts
                                == t && in_emojis(self.entries@[i].emojis@, e, s);
                        if i != p {
                            let i0 = if i < p { i } else { i - 1 };
                            assert(self.entries@[i] == v0[i0]);
                        } else {
                            assert(in_emojis(e1, e, s) == (e == emoji@ && s == sender));
                        }
                    }
                    if t == ts && e == emoji@ && s == sender {
                        assert(self.entries@[p as int].target_ts == t);
                    }
                }
            }
        } else {
            proof {
                assert forall|e: Seq<char>, s: Uuid| !(#[trigger] m0.has(ts, e, s)) by {
                    if m0.has(ts, e, s) {
                        let i = choose|i: int|
                            0 <= i < v0.len() && (#[trigger] v0[i]).target_ts == ts && in_emojis(
                                v0[i].emojis@,
                                e,
                                s,
                            );
                        assert(i == p);
                    }
                }
            }
        }
    }

    /// The reactions that stand after a list of events in the order of time.
    pub fn from_events(events: &Vec<ReactionEvent>) -> (r: ReactionMap)
        ensures
            r.wf(),
            forall|t: u64, e: Seq<char>, s: Uuid| #[trigger]
                r.has(t, e, s) == reacted(event_views(events@), t, e, s),
    {
        let n = events.len();
        let ghost all = event_views(events@);
        let mut map = ReactionMap::new();
        let mut i: usize = 0;
        while i < n
            invariant
                i <= n == events@.len(),
                all == event_views(events@),
                map.wf(),
                forall|t: u64, e: Seq<char>, s: Uuid| #[trigger]
                    map.has(t, e, s) == reacted(all.take(i as int), t, e, s),
            decreases n - i,
        {
            let ev = &events[i];
            map.set(ev.target_ts, ev.emoji.as_str(), ev.sender, !ev.remove);
            proof {
                assert(all.take(i + 1).drop_last() == all.take(i as int));
            }
            i += 1;
        }
        proof {
            assert(all.take(n as int) == all);
        }
        map
    }
}

// ── Text ─────────────────────────────────────────────────────────────────────

/// The number of senders, `x`, and the emoji.
pub open spec fn pair_text(e: EmojiReactions) -> Seq<char> {
    decimal_of(e.senders@.len()) + "x"@ + e.emoji@
}

/// The text for each emoji.
pub open spec fn pair_texts(v: Seq<EmojiReactions>) -> Seq<Seq<char>> {
    v.map_values(|e: EmojiReactions| pair_text(e))
}

/// One text for each emoji, in the order of the emoji: how many senders used
/// it, `x`, and the emoji.
pub fn fmt_reaction_pairs(map: &Vec<EmojiReactions>) -> (r: Vec<String>)
    ensures
        texts(r@) == pair_texts(map@),
{
    let n = map.len();
    let mut out: Vec<String> = Vec::new();
    let mut i: usize = 0;
    while i < n
        invariant
            i <= n == map@.len(),
            out@.len() == i,
            forall|j: int| 0 <= j < i ==> (#[trigger] out@[j])@ == pair_text(map@[j]),
        decreases n - i,
    {
        let e = &map[i];
        out.push(decimal(e.senders.len() as u64).concat("x").concat(e.emoji.as_str()));
        i += 1;
    }
    proof {
        assert(texts(out@) == pair_texts(map@));
    }
    out
}

/// The reactions to a message for the status bar.
pub open spec fn reaction_hint_of(reactions: ReactionMap, target_ts: u64) -> Seq<char> {
    if reactions.at(target_ts).len() == 0 {
        "(no reactions)"@
    } else {
        join_of(pair_texts(reactions.at(target_ts)), "  "@)
    }
}

/// The reactions to a message for the status bar.
pub fn reaction_hint(reactions: &ReactionMap, target_ts: u64) -> (r: String)
    requires
        reactions.wf(),
    ensures
        r@ == reaction_hint_of(*reactions, target_ts),
{
    match reactions.get(target_ts) {
        None => "(no reactions)".to_owned(),
        Some(v) => join(&fmt_reaction_pairs(v), "  "),
    }
}

/// The reactions to a message for the line below it, in brackets; none without
/// reactions.
pub fn format_reactions(map: Option<&Vec<EmojiReactions>>) -> (r: Option<String>)
    ensures
        r is Some <==> map is Some && map->0@.len() > 0,
        r matches Some(s) ==> s@ == "["@ + join_of(pair_texts(map->0@), ", "@) + "]"@,
{
    match map {
        None => None,
        Some(v) => {
            if v.is_empty() {
                None
            } else {
                Some("[".to_owned().concat(join(&fmt_reaction_pairs(v), ", ").as_str()).concat("]"))
            }
        },
    }
}

// ── Laws ─────────────────────────────────────────────────────────────────────

/// Taking a reaction back leaves all as it was before it was given, if it did
/// not stand then.
pub proof fn law_removal_undoes_reaction(
    events: Seq<Reacting>,
    give: Reacting,
    take_back: Reacting,
    ts: u64,
    emoji: Seq<char>,
    sender: Uuid,
)
    requires
        !give.remove,
        take_back.remove,
        give.sender == take_back.sender,
        give.emoji == take_back.emoji,
        give.target_ts == take_back.target_ts,
        !reacted(events, give.target_ts, give.emoji, give.sender),
    ensures
        reacted(events.push(give), give.target_ts, give.emoji, give.sender),
        reacted(events.push(give).push(take_back), ts, emoji, sender) == reacted(
            events,
            ts,
            emoji,
            sender,
        ),
{
    reveal_with_fuel(reacted, 3);
    assert(events.push(give).push(take_back).drop_last() == events.push(give));
    assert(events.push(give).drop_last() == events);
}

/// Two lists of reactions to a message that hold the same reactions show the
/// same texts: what stands determines what is shown.
pub proof fn law_shown_reactions_determined(a: Seq<EmojiReactions>, b: Seq<EmojiReactions>)
    requires
        emojis_wf(a),
        emojis_wf(b),
        forall|e: Seq<char>, s: Uuid| #[trigger] in_emojis(a, e, s) == in_emojis(b, e, s),
    ensures
        pair_texts(a) == pair_texts(b),
    decreases a.len(),
{
    lemma_same_firsts(a, b);
    if a.len() > 0 {
        let x = a.drop_first();
        let y = b.drop_first();
        lemma_drop_first(a);
        lemma_drop_first(b);
        law_shown_reactions_determined(x, y);
        lemma_same_senders(a[0].senders@, b[0].senders@);
        assert(pair_text(a[0]) == pair_text(b[0]));
        assert(pair_texts(x).len() == pair_texts(y).len());
        assert forall|i: int| 0 <= i < a.len() implies pair_texts(a)[i] == pair_texts(b)[i] by {
            if i > 0 {
                assert(pair_texts(x)[i - 1] == pair_texts(y)[i - 1]);
                assert(x[i - 1] == a[i] && y[i - 1] == b[i]);
            }
        }
        assert(pair_texts(a) == pair_texts(b));
    } else {
        assert(pair_texts(a) == pair_texts(b));
    }
}

/// The first entries of two lists with the same reactions agree.
proof fn lemma_same_firsts(a: Seq<EmojiReactions>, b: Seq<EmojiReactions>)
    requires
        emojis_wf(a),
        emojis_wf(b),
        forall|e: Seq<char>, s: Uuid| #[trigger] in_emojis(a, e, s) == in_emojis(b, e, s),
    ensures
        (a.len() == 0) == (b.len() == 0),
        a.len() > 0 ==> a[0].emoji@ == b[0].emoji@ && forall|s: Uuid| #[trigger]
            a[0].senders@.contains(s) == b[0].senders@.contains(s),
{
    if a.len() > 0 {
        let s = a[0].senders@[0];
        assert(a[0].senders@.contains(s));
        assert(in_emojis(a, a[0].emoji@, s));
        assert(in_emojis(b, a[0].emoji@, s));
    }
    if b.len() > 0 {
        let s = b[0].senders@[0];
        assert(b[0].senders@.contains(s));
        assert(in_emojis(b, b[0].emoji@, s));
        assert(in_emojis(a, b[0].emoji@, s));
    }
    if a.len() > 0 && b.len() > 0 {
        let sa = a[0].senders@[0];
        let j = choose|j: int|
            0 <= j < b.len() && (#[trigger] b[j]).emoji@ == a[0].emoji@ && b[j].senders@.contains(sa);
        let sb = b[0].senders@[0];
        let i = choose|i: int|
            0 <= i < a.len() && (#[trigger] a[i]).emoji@ == b[0].emoji@ && a[i].senders@.contains(sb);
        if i > 0 {
            assert(lex_le(a[0].emoji@, a[i].emoji@) && a[0].emoji@ != a[i].emoji@);
            if j > 0 {
                assert(lex_le(b[0].emoji@, b[j].emoji@));
                lemma_lex_antisymmetric(a[0].emoji@, b[0].emoji@);
            }
        }
        assert(a[0].emoji@ == b[0].emoji@);
        assert forall|s: Uuid| #[trigger] a[0].senders@.contains(s) == b[0].senders@.contains(s) by {
            let e = a[0].emoji@;
            if a[0].senders@.contains(s) {
                assert(in_emojis(a, e, s));
                assert(in_emojis(b, e, s));
            }
            if b[0].senders@.contains(s) {
                assert(in_emojis(b, e, s));
                assert(in_emojis(a, e, s));
            }
        }
    }
}

proof fn lemma_drop_first(a: Seq<EmojiReactions>)
    requires
        emojis_wf(a),
        a.len() > 0,
    ensures
        emojis_wf(a.drop_first()),
        forall|e: Seq<char>, s: Uuid| #[trigger]
            in_emojis(a.drop_first(), e, s) == (in_emojis(a, e, s) && e != a[0].emoji@),
{
    let x = a.drop_first();
    assert forall|i: int, j: int| 0 <= i < j < x.len() implies lex_le(
        (#[trigger] x[i]).emoji@,
        (#[trigger] x[j]).emoji@,
    ) && x[i].emoji@ != x[j].emoji@ by {
        assert(x[i] == a[i + 1] && x[j] == a[j + 1]);
    }
    assert forall|i: int| 0 <= i < x.len() implies (#[trigger] x[i]).senders@.len() > 0
        && x[i].senders@.no_duplicates() by {
        assert(x[i] == a[i + 1]);
    }
    assert forall|e: Seq<char>, s: Uuid| #[trigger] in_emojis(x, e, s) == (in_emojis(a, e, s) && e
        != a[0].emoji@) by {
        if in_emojis(x, e, s) {
            let j = choose|j: int|
                0 <= j < x.len() && (#[trigger] x[j]).emoji@ == e && x[j].senders@.contains(s);
            assert(x[j] == a[j + 1]);
        }
        if in_emojis(a, e, s) && e != a[0].emoji@ {
            let j = choose|j: int|
                0 <= j < a.len() && (#[trigger] a[j]).emoji@ == e && a[j].senders@.contains(s);
            assert(x[j - 1] == a[j]);
        }
    }
}

proof fn lemma_same_senders(a: Seq<Uuid>, b: Seq<Uuid>)
    requires
        a.no_duplicates(),
        b.no_duplicates(),
        forall|s: Uuid| #[trigger] a.contains(s) == b.contains(s),
    ensures
        a.len() == b.len(),
{
    a.unique_seq_to_set();
    b.unique_seq_to_set();
    assert(a.to_set() == b.to_set());
}

/// Each emoji is shown with the number of those who reacted with it.
pub proof fn law_reactions_are_counted(v: Seq<EmojiReactions>, emoji: Seq<char>, sender: Uuid)
    requires
        emojis_wf(v),
        in_emojis(v, emoji, sender),
    ensures
        exists|j: int|
            0 <= j < v.len() && #[trigger] pair_texts(v)[j] == decimal_of(
                Set::new(|s: Uuid| in_emojis(v, emoji, s)).len(),
            ) + "x"@ + emoji,
        pair_texts(v).len() == v.len(),
{
    let j = choose|j: int|
        0 <= j < v.len() && (#[trigger] v[j]).emoji@ == emoji && v[j].senders@.contains(sender);
    let s = v[j].senders@;
    let all = Set::new(|s: Uuid| in_emojis(v, emoji, s));
    assert forall|x: Uuid| #[trigger] s.to_set().contains(x) == all.contains(x) by {
        if in_emojis(v, emoji, x) {
            let k = choose|k: int|
                0 <= k < v.len() && (#[trigger] v[k]).emoji@ == emoji && v[k].senders@.contains(x);
            if k < j {
                assert(v[k].emoji@ != v[j].emoji@);
            } else if j < k {
                assert(v[j].emoji@ != v[k].emoji@);
            }
        }
        if s.contains(x) {
            assert(v[j].senders@.contains(x));
        }
    }
    assert(s.to_set() =~= all);
    s.unique_seq_to_set();
    assert(pair_texts(v)[j] == pair_text(v[j]));
}

/// The reactions to a message are those that stand in the map, and the hint lists them
/// all, or says that there are none.
pub proof fn law_hint_lists_reactions(map: ReactionMap, ts: u64, i: int)
    requires
        map.wf(),
    ensures
        0 <= i < map.entries@.len() && map.entries@[i].target_ts == ts ==> map.at(ts)
            == map.entries@[i].emojis@,
        (forall|j: int|
            0 <= j < map.entries@.len() ==> (#[trigger] map.entries@[j]).target_ts != ts) ==> map.at(
            ts,
        ).len() == 0,
        map.at(ts).len() == 0 ==> reaction_hint_of(map, ts) == "(no reactions)"@,
        map.at(ts).len() > 0 ==> reaction_hint_of(map, ts) == join_of(
            pair_texts(map.at(ts)),
            "  "@,
        ),
{
    if 0 <= i < map.entries@.len() && map.entries@[i].target_ts == ts {
        let k = choose|k: int|
            0 <= k < map.entries@.len() && (#[trigger] map.entries@[k]).target_ts == ts;
        if k < i {
            assert(map.entries@[k].target_ts < map.entries@[i].target_ts);
        } else if i < k {
            assert(map.entries@[i].target_ts < map.entries@[k].target_ts);
        }
    }
}

/// The newest word counts: the last event about a message, an emoji and a sender says
/// whether the reaction stands; events about others do not.
pub proof fn law_last_event_counts(
    events: Seq<Reacting>,
    e: Reacting,
    ts: u64,
    emoji: Seq<char>,
    sender: Uuid,
)
    ensures
        e.target_ts == ts && e.emoji == emoji && e.sender == sender ==> reacted(
            events.push(e),
            ts,
            emoji,
            sender,
        ) == !e.remove,
        e.target_ts != ts || e.emoji != emoji || e.sender != sender ==> reacted(
            events.push(e),
            ts,
            emoji,
            sender,
        ) == reacted(events, ts, emoji, sender),
        !reacted(Seq::empty(), ts, emoji, sender),
{
    assert(events.push(e).drop_last() == events);
}

} // verus!
