//! The history of a thread: which messages are shown, which reactions stand,
//! and which messages were received and read.

use std::collections::HashSet;

use vstd::prelude::*;

use crate::content::{
    apply_edit_body, body_of, data_message, data_message_of, edit_of, extract_edit,
    extract_preview, is_edited, message_body, Content, ContentBody, DataMessage, EditMessage,
    Reaction, Sent,
};
use crate::ids::Uuid;
use crate::reactions::{event_views, reacted, Reacting, ReactionEvent, ReactionMap};

verus! {

broadcast use vstd::std_specs::hash::group_hash_axioms;

// The store hands a thread out as a list with the newest record first; `None`
// stands for a record that cannot be read.

/// The reaction in a content.
pub open spec fn reaction_of(content: Content) -> Option<Reaction> {
    match data_message_of(content) {
        Some(msg) => msg.reaction,
        None => None,
    }
}

/// Whether a content stands in the chat as a message of its own.
pub open spec fn is_shown(content: Content) -> bool {
    edit_of(content) is None && reaction_of(content) is None && body_of(content).len() > 0
}

/// The messages that stand in the chat, oldest first.
pub open spec fn shown_of(records: Seq<Option<Content>>) -> Seq<Content>
    decreases records.len(),
{
    if records.len() == 0 {
        Seq::empty()
    } else {
        let older = shown_of(records.drop_first());
        match records[0] {
            Some(c) => if is_shown(c) {
                older.push(c)
            } else {
                older
            },
            None => older,
        }
    }
}

/// The newest text that an edit gives to the message with a time stamp.
pub open spec fn latest_edit(records: Seq<Option<Content>>, ts: u64) -> Option<Seq<char>>
    decreases records.len(),
{
    if records.len() == 0 {
        None
    } else {
        match records[0] {
            Some(c) => match edit_of(c) {
                Some(e) => if e.0 == ts {
                    Some(e.1)
                } else {
                    latest_edit(records.drop_first(), ts)
                },
                None => latest_edit(records.drop_first(), ts),
            },
            None => latest_edit(records.drop_first(), ts),
        }
    }
}

/// The reaction event in a content. A reaction without emoji or target is
/// none.
pub open spec fn event_of(content: Content) -> Option<Reacting> {
    if edit_of(content) is Some {
        None
    } else {
        match reaction_of(content) {
            Some(r) => match (r.emoji, r.target_sent_timestamp) {
                (Some(emoji), Some(ts)) => if emoji@.len() > 0 {
                    Some(
                        Reacting {
                            sender: content.sender,
                            emoji: emoji@,
                            remove: r.remove == Some(true),
                            target_ts: ts,
                        },
                    )
                } else {
                    None
                },
                _ => None,
            },
            None => None,
        }
    }
}

/// The reaction events, oldest first.
pub open spec fn events_of(records: Seq<Option<Content>>) -> Seq<Reacting>
    decreases records.len(),
{
    if records.len() == 0 {
        Seq::empty()
    } else {
        let older = events_of(records.drop_first());
        match records[0] {
            Some(c) => match event_of(c) {
                Some(e) => older.push(e),
                None => older,
            },
            None => older,
        }
    }
}

/// Whether `after` is the message with its newest edit applied.
pub open spec fn is_current(after: Content, before: Content, edit: Option<Seq<char>>) -> bool {
    match edit {
        Some(text) => is_edited(after, before, text),
        None => after == before,
    }
}

/// Whether a list of messages is what a history shows: its messages, oldest
/// first, each with its newest edit.
pub open spec fn is_chat_of(messages: Seq<Content>, records: Seq<Option<Content>>) -> bool {
    &&& messages.len() == shown_of(records).len()
    &&& forall|i: int|
        0 <= i < messages.len() ==> is_current(
            #[trigger] messages[i],
            shown_of(records)[i],
            latest_edit(records, shown_of(records)[i].timestamp),
        )
}

fn reaction_event(content: &Content) -> (r: Option<ReactionEvent>)
    requires
        edit_of(*content) is None,
    ensures
        (match r {
            Some(e) => event_of(*content) == Some(e@),
            None => event_of(*content) is None,
        }),
{
    match data_message(content) {
        None => None,
        Some(msg) => match &msg.reaction {
            None => None,
            Some(r) => match (&r.emoji, &r.target_sent_timestamp) {
                (Some(emoji), Some(ts)) => {
                    if emoji.as_str().is_empty() {
                        None
                    } else {
                        let remove = match r.remove {
                            Some(b) => b,
                            None => false,
                        };
                        Some(
                            ReactionEvent {
                                sender: content.sender,
                                emoji: emoji.clone(),
                                remove,
                                target_ts: *ts,
                            },
                        )
                    }
                },
                _ => None,
            },
        },
    }
}

fn has_reaction(content: &Content) -> (r: bool)
    ensures
        r == (reaction_of(*content) is Some),
{
    match data_message(content) {
        None => false,
        Some(msg) => msg.reaction.is_some(),
    }
}

/// The newest text that an edit gives to the message with a time stamp.
fn find_edit(edits: &Vec<(u64, String)>, ts: u64) -> (r: Option<usize>)
    ensures
        r matches Some(i) ==> i < edits@.len() && edits@[i as int].0 == ts && forall|j: int|
            0 <= j < i ==> (#[trigger] edits@[j]).0 != ts,
        r is None ==> forall|j: int| 0 <= j < edits@.len() ==> (#[trigger] edits@[j]).0 != ts,
{
    let n = edits.len();
    let mut i: usize = 0;
    while i < n
        invariant
            i <= n == edits@.len(),
            forall|j: int| 0 <= j < i ==> (#[trigger] edits@[j]).0 != ts,
        decreases n - i,
    {
        if edits[i].0 == ts {
            return Some(i);
        }
        i += 1;
    }
    None
}

/// The text of the first edit in the list for a time stamp.
spec fn edit_in(edits: Seq<(u64, String)>, ts: u64) -> Option<Seq<char>>
    decreases edits.len(),
{
    if edits.len() == 0 {
        None
    } else if edits[0].0 == ts {
        Some(edits[0].1@)
    } else {
        edit_in(edits.drop_first(), ts)
    }
}

proof fn lemma_edit_in(edits: Seq<(u64, String)>, ts: u64, i: int)
    requires
        0 <= i <= edits.len(),
        forall|j: int| 0 <= j < i ==> (#[trigger] edits[j]).0 != ts,
        i < edits.len() ==> edits[i].0 == ts,
    ensures
        edit_in(edits, ts) == (if i < edits.len() {
            Some(edits[i].1@)
        } else {
            None
        }),
    decreases edits.len(),
{
    if edits.len() > 0 && i > 0 {
        let rest = edits.drop_first();
        assert forall|j: int| 0 <= j < i - 1 implies (#[trigger] rest[j]).0 != ts by {
            assert(rest[j] == edits[j + 1]);
        }
        assert(edits[0].0 != ts);
        lemma_edit_in(rest, ts, i - 1);
    }
}

proof fn lemma_edit_in_push(edits: Seq<(u64, String)>, e: (u64, String), ts: u64)
    ensures
        edit_in(edits.push(e), ts) == (match edit_in(edits, ts) {
            Some(t) => Some(t),
            None => if e.0 == ts {
                Some(e.1@)
            } else {
                None
            },
        }),
    decreases edits.len(),
{
    if edits.len() == 0 {
        assert(edits.push(e).drop_first() == edits);
    } else {
        lemma_edit_in_push(edits.drop_first(), e, ts);
        assert(edits.push(e).drop_first() == edits.drop_first().push(e));
    }
}

proof fn lemma_latest_edit_split(records: Seq<Option<Content>>, k: int, ts: u64)
    requires
        0 <= k <= records.len(),
    ensures
        latest_edit(records, ts) == (match latest_edit(records.take(k), ts) {
            Some(t) => Some(t),
            None => latest_edit(records.skip(k), ts),
        }),
    decreases k,
{
    if k == 0 {
        assert(records.skip(0) == records);
    } else {
        lemma_latest_edit_split(records.drop_first(), k - 1, ts);
        assert(records.drop_first().take(k - 1) == records.take(k).drop_first());
        assert(records.drop_first().skip(k - 1) == records.skip(k));
    }
}

proof fn lemma_latest_edit_step(records: Seq<Option<Content>>, i: int, ts: u64)
    requires
        0 <= i < records.len(),
    ensures
        latest_edit(records.take(i + 1), ts) == (match latest_edit(records.take(i), ts) {
            Some(t) => Some(t),
            None => match records[i] {
                Some(c) => match edit_of(c) {
                    Some(e) => if e.0 == ts {
                        Some(e.1)
                    } else {
                        None
                    },
                    None => None,
                },
                None => None,
            },
        }),
{
    let one = seq![records[i]];
    lemma_latest_edit_split(records.take(i + 1), i, ts);
    assert(records.take(i + 1).take(i) == records.take(i));
    assert(records.take(i + 1).skip(i) == one);
    assert(one.drop_first() == Seq::<Option<Content>>::empty());
    reveal_with_fuel(latest_edit, 2);
}

/// Splits a history into the messages that are shown, with edits applied, and
/// the reactions that stand.
pub fn load_messages_and_reactions(records: Vec<Option<Content>>) -> (r: (
    Vec<Content>,
    ReactionMap,
))
    ensures
        is_chat_of(r.0@, records@),
        r.1.wf(),
        forall|t: u64, e: Seq<char>, s: Uuid| #[trigger]
            r.1.has(t, e, s) == reacted(events_of(records@), t, e, s),
{
    let ghost all = records@;
    let n = records.len();
    let mut edits: Vec<(u64, String)> = Vec::new();
    let mut events: Vec<ReactionEvent> = Vec::new();
    // Edits newest first; events oldest first, so walked from the end.
    let mut i: usize = 0;
    while i < n
        invariant
            i <= n == records@.len(),
            records@ == all,
            forall|ts: u64| #[trigger]
                edit_in(edits@, ts) == latest_edit(all.take(i as int), ts),
        decreases n - i,
    {
        let ghost e0 = edits@;
        if let Some(content) = &records[i] {
            if let Some(e) = extract_edit(content) {
                edits.push(e);
            }
        }
        proof {
            assert forall|ts: u64| #[trigger] edit_in(edits@, ts) == latest_edit(
                all.take(i + 1),
                ts,
            ) by {
                lemma_latest_edit_step(all, i as int, ts);
                assert(edit_in(e0, ts) == latest_edit(all.take(i as int), ts));
                if edits@.len() > e0.len() {
                    assert(edits@ == e0.push(edits@.last()));
                    lemma_edit_in_push(e0, edits@.last(), ts);
                }
            }
        }
        i += 1;
    }
    proof {
        assert(all.take(n as int) == all);
    }
    let mut k: usize = n;
    proof {
        assert(all.skip(n as int) == Seq::<Option<Content>>::empty());
        assert(event_views(events@) == events_of(all.skip(n as int)));
    }
    while k > 0
        invariant
            k <= n == records@.len(),
            records@ == all,
            event_views(events@) == events_of(all.skip(k as int)),
        decreases k,
    {
        k -= 1;
        let ghost ev0 = events@;
        proof {
            assert(all.skip(k as int).drop_first() == all.skip(k + 1));
            assert(all.skip(k as int)[0] == all[k as int]);
        }
        if let Some(content) = &records[k] {
            if extract_edit(content).is_none() {
                if let Some(e) = reaction_event(content) {
                    let ghost new = e;
                    events.push(e);
                    proof {
                        assert(event_views(events@) == event_views(ev0).push(new@));
                    }
                }
            }
        }
    }
    proof {
        assert(all.skip(0) == all);
    }
    let reactions = ReactionMap::from_events(&events);
    // Messages oldest first, taken from the end of the list.
    let mut messages: Vec<Content> = Vec::new();
    let mut rest = records;
    proof {
        assert(all.take(n as int) == all);
        assert(shown_of(all.skip(n as int)) == Seq::<Content>::empty());
    }
    while rest.len() > 0
        invariant
            rest@.len() <= n == all.len(),
            rest@ == all.take(rest@.len() as int),
            forall|ts: u64| #[trigger] edit_in(edits@, ts) == latest_edit(all, ts),
            messages@.len() == shown_of(all.skip(rest@.len() as int)).len(),
            forall|i: int|
                0 <= i < messages@.len() ==> is_current(
                    #[trigger] messages@[i],
                    shown_of(all.skip(rest@.len() as int))[i],
                    latest_edit(all, shown_of(all.skip(rest@.len() as int))[i].timestamp),
                ),
        decreases rest@.len(),
    {
        let ghost m = rest@.len() - 1;
        proof {
            assert(all.skip(m).drop_first() == all.skip(m + 1));
            assert(all.skip(m)[0] == all[m]);
        }
        let record = rest.pop();
        proof {
            assert(rest@ == all.take(m));
        }
        if let Some(Some(content)) = record {
            let mut content = content;
            let ghost before = content;
            if extract_edit(&content).is_none() && !has_reaction(&content) && !message_body(
                &content,
            ).as_str().is_empty() {
                let found = find_edit(&edits, content.timestamp);
                proof {
                    lemma_edit_in(
                        edits@,
                        before.timestamp,
                        match found {
                            Some(i) => i as int,
                            None => edits@.len() as int,
                        },
                    );
                    assert(edit_in(edits@, before.timestamp) == latest_edit(all, before.timestamp));
                }
                if let Some(i) = found {
                    apply_edit_body(&mut content, edits[i].1.as_str());
                }
                messages.push(content);
            }
        }
    }
    proof {
        assert(all.skip(0) == all);
    }
    (messages, reactions)
}

/// The messages that a history shows.
pub fn load_messages(records: Vec<Option<Content>>) -> (r: Vec<Content>)
    ensures
        is_chat_of(r@, records@),
{
    load_messages_and_reactions(records).0
}

// ── Receipts ─────────────────────────────────────────────────────────────────

/// Whether a content is a receipt of a kind for a message.
pub open spec fn is_receipt(content: Content, kind: i32, ts: u64) -> bool {
    match content.body {
        ContentBody::ReceiptMessage(receipt) => receipt.kind == Some(kind)
            && receipt.timestamp@.contains(ts),
        _ => false,
    }
}

/// Whether a history holds a receipt of a kind for a message.
pub open spec fn has_receipt(records: Seq<Option<Content>>, kind: i32, ts: u64) -> bool {
    exists|i: int|
        0 <= i < records.len() && (#[trigger] records[i]) is Some && is_receipt(
            records[i]->0,
            kind,
            ts,
        )
}

/// Whether a history shows that a message was read.
pub open spec fn was_read(records: Seq<Option<Content>>, ts: u64) -> bool {
    has_receipt(records, 1, ts)
}

/// Whether a history shows that a message was delivered, which a read message
/// was.
pub open spec fn was_delivered(records: Seq<Option<Content>>, ts: u64) -> bool {
    has_receipt(records, 0, ts) || has_receipt(records, 1, ts)
}

fn insert_all(set: &mut HashSet<u64>, items: &Vec<u64>)
    ensures
        forall|t: u64| #[trigger]
            final(set)@.contains(t) <==> old(set)@.contains(t) || items@.contains(t),
{
    let n = items.len();
    let mut i: usize = 0;
    while i < n
        invariant
            i <= n == items@.len(),
            forall|t: u64| #[trigger]
                set@.contains(t) <==> old(set)@.contains(t) || items@.take(i as int).contains(t),
        decreases n - i,
    {
        let x = items[i];
        set.insert(x);
        proof {
            let a = items@.take(i as int);
            let b = items@.take(i + 1);
            assert(b == a.push(x));
            assert forall|t: u64| #[trigger] b.contains(t) <==> a.contains(t) || t == x by {
                if a.contains(t) {
                    let j = choose|j: int| 0 <= j < a.len() && a[j] == t;
                    assert(b[j] == t);
                }
                if t == x {
                    assert(b[i as int] == t);
                }
            }
        }
        i += 1;
    }
    proof {
        assert(items@.take(n as int) == items@);
    }
}

proof fn lemma_receipt_step(records: Seq<Option<Content>>, i: int, kind: i32, ts: u64)
    requires
        0 <= i < records.len(),
    ensures
        has_receipt(records.take(i + 1), kind, ts) <==> has_receipt(records.take(i), kind, ts) || (
        records[i] is Some && is_receipt(records[i]->0, kind, ts)),
{
    let a = records.take(i);
    let b = records.take(i + 1);
    if has_receipt(a, kind, ts) {
        let j = choose|j: int|
            0 <= j < a.len() && (#[trigger] a[j]) is Some && is_receipt(a[j]->0, kind, ts);
        assert(b[j] == a[j]);
    }
    if records[i] is Some && is_receipt(records[i]->0, kind, ts) {
        assert(b[i] == records[i]);
    }
    if has_receipt(b, kind, ts) {
        let j = choose|j: int|
            0 <= j < b.len() && (#[trigger] b[j]) is Some && is_receipt(b[j]->0, kind, ts);
        if j < i {
            assert(a[j] == b[j]);
        }
    }
}

/// The time stamps of the messages that were delivered and of those that were
/// read.
pub fn load_receipt_state(records: &Vec<Option<Content>>) -> (r: (HashSet<u64>, HashSet<u64>))
    ensures
        forall|t: u64| #[trigger] r.0@.contains(t) <==> was_delivered(records@, t),
        forall|t: u64| #[trigger] r.1@.contains(t) <==> was_read(records@, t),
        r.1@.subset_of(r.0@),
{
    let n = records.len();
    let mut delivered: HashSet<u64> = HashSet::new();
    let mut read: HashSet<u64> = HashSet::new();
    let mut i: usize = 0;
    while i < n
        invariant
            i <= n == records@.len(),
            forall|t: u64| #[trigger]
                delivered@.contains(t) <==> was_delivered(records@.take(i as int), t),
            forall|t: u64| #[trigger] read@.contains(t) <==> was_read(records@.take(i as int), t),
        decreases n - i,
    {
        proof {
            assert forall|t: u64| #[trigger] was_delivered(records@.take(i + 1), t) <==> (
            was_delivered(records@.take(i as int), t) || (records@[i as int] is Some && (is_receipt(
                records@[i as int]->0,
                0,
                t,
            ) || is_receipt(records@[i as int]->0, 1, t)))) by {
                lemma_receipt_step(records@, i as int, 0, t);
                lemma_receipt_step(records@, i as int, 1, t);
            }
            assert forall|t: u64| #[trigger] was_read(records@.take(i + 1), t) <==> (was_read(
                records@.take(i as int),
                t,
            ) || (records@[i as int] is Some && is_receipt(records@[i as int]->0, 1, t))) by {
                lemma_receipt_step(records@, i as int, 1, t);
            }
        }
        if let Some(content) = &records[i] {
            if let ContentBody::ReceiptMessage(receipt) = &content.body {
                if let Some(kind) = receipt.kind {
                    if kind == 0 {
                        insert_all(&mut delivered, &receipt.timestamp);
                    } else if kind == 1 {
                        insert_all(&mut read, &receipt.timestamp);
                        insert_all(&mut delivered, &receipt.timestamp);
                    }
                }
            }
        }
        i += 1;
    }
    proof {
        assert(records@.take(n as int) == records@);
        assert forall|t: u64| read@.contains(t) implies delivered@.contains(t) by {}
    }
    (delivered, read)
}

/// The time stamps of the messages that others sent and that are not known.
pub open spec fn acks_of(messages: Seq<Content>, own_aci: Option<Uuid>, known: Set<u64>) -> Seq<u64>
    decreases messages.len(),
{
    if messages.len() == 0 {
        Seq::empty()
    } else {
        let before = acks_of(messages.drop_last(), own_aci, known);
        let m = messages.last();
        if own_aci != Some(m.sender) && !known.contains(m.timestamp) {
            before.push(m.timestamp)
        } else {
            before
        }
    }
}

/// The time stamps for which a read receipt is due: messages that others sent
/// and that were not known before.
pub fn timestamps_to_ack(
    messages: &Vec<Content>,
    own_aci: Option<Uuid>,
    known: &HashSet<u64>,
) -> (r: Vec<u64>)
    ensures
        r@ == acks_of(messages@, own_aci, known@),
{
    let n = messages.len();
    let mut out: Vec<u64> = Vec::new();
    let mut i: usize = 0;
    proof {
        assert(messages@.take(0) == Seq::<Content>::empty());
    }
    while i < n
        invariant
            i <= n == messages@.len(),
            out@ == acks_of(messages@.take(i as int), own_aci, known@),
        decreases n - i,
    {
        proof {
            assert(messages@.take(i + 1).drop_last() == messages@.take(i as int));
        }
        let m = &messages[i];
        if own_aci != Some(m.sender) && !known.contains(&m.timestamp) {
            out.push(m.timestamp);
        }
        i += 1;
    }
    proof {
        assert(messages@.take(n as int) == messages@);
    }
    out
}

/// The time stamps of a list of messages.
pub fn known_timestamps(messages: &Vec<Content>) -> (r: HashSet<u64>)
    ensures
        forall|t: u64| #[trigger]
            r@.contains(t) <==> exists|i: int|
                0 <= i < messages@.len() && (#[trigger] messages@[i]).timestamp == t,
{
    let n = messages.len();
    let mut set: HashSet<u64> = HashSet::new();
    let mut i: usize = 0;
    while i < n
        invariant
            i <= n == messages@.len(),
            forall|t: u64| #[trigger]
                set@.contains(t) <==> exists|j: int|
                    0 <= j < i && (#[trigger] messages@[j]).timestamp == t,
        decreases n - i,
    {
        set.insert(messages[i].timestamp);
        proof {
            assert(messages@[i as int].timestamp == messages@[i as int].timestamp);
        }
        i += 1;
    }
    set
}

// ── The last message ─────────────────────────────────────────────────────────

/// The text of the newest record that has one.
pub open spec fn newest_preview(records: Seq<Option<Content>>) -> Option<Seq<char>>
    decreases records.len(),
{
    if records.len() == 0 {
        None
    } else if records[0] is Some && body_of(records[0]->0).len() > 0 {
        Some(body_of(records[0]->0))
    } else {
        newest_preview(records.drop_first())
    }
}

/// The newest time stamp, looking no further back than the record that gives
/// the preview; 0 if there is none.
pub open spec fn newest_ts(records: Seq<Option<Content>>) -> u64
    decreases records.len(),
{
    if records.len() == 0 {
        0
    } else {
        match records[0] {
            None => newest_ts(records.drop_first()),
            Some(c) => if c.timestamp != 0 || body_of(c).len() > 0 {
                c.timestamp
            } else {
                newest_ts(records.drop_first())
            },
        }
    }
}

/// The fifty newest records.
pub open spec fn newest_fifty(records: Seq<Option<Content>>) -> Seq<Option<Content>> {
    records.take(
        if records.len() <= 50 {
            records.len() as int
        } else {
            50
        },
    )
}

/// The preview and the time stamp of a thread from its fifty newest records.
pub fn last_message(records: &Vec<Option<Content>>) -> (r: (Option<String>, u64))
    ensures
        (match r.0 {
            Some(p) => newest_preview(newest_fifty(records@)) == Some(p@),
            None => newest_preview(newest_fifty(records@)) is None,
        }),
        r.1 == newest_ts(newest_fifty(records@)),
{
    let n = if records.len() <= 50 {
        records.len()
    } else {
        50
    };
    let ghost w = newest_fifty(records@);
    let mut last_ts: u64 = 0;
    let mut i: usize = 0;
    proof {
        assert(w.skip(0) == w);
    }
    while i < n
        invariant
            i <= n == w.len(),
            n <= records@.len(),
            w == newest_fifty(records@),
            forall|j: int| 0 <= j < n ==> (#[trigger] w[j]) == records@[j],
            newest_preview(w) == newest_preview(w.skip(i as int)),
            newest_ts(w) == (if last_ts != 0 {
                last_ts
            } else {
                newest_ts(w.skip(i as int))
            }),
        decreases n - i,
    {
        proof {
            assert(w.skip(i as int).drop_first() == w.skip(i + 1));
            assert(w.skip(i as int)[0] == w[i as int]);
        }
        if let Some(content) = &records[i] {
            if last_ts == 0 {
                last_ts = content.timestamp;
            }
            if let Some(p) = extract_preview(content) {
                return (Some(p), last_ts);
            }
        }
        i += 1;
    }
    (None, last_ts)
}

// ── Laws ─────────────────────────────────────────────────────────────────────

/// An edit adds no message to the chat; it gives its target the new text and
/// leaves the texts of all others.
pub proof fn law_edit_replaces_text(records: Seq<Option<Content>>, edit: Content, ts: u64)
    requires
        edit_of(edit) is Some,
    ensures
        shown_of(seq![Some(edit)] + records) == shown_of(records),
        events_of(seq![Some(edit)] + records) == events_of(records),
        latest_edit(seq![Some(edit)] + records, edit_of(edit).unwrap().0) == Some(edit_of(edit).unwrap().1),
        ts != edit_of(edit).unwrap().0 ==> latest_edit(seq![Some(edit)] + records, ts) == latest_edit(
            records,
            ts,
        ),
{
    let all = seq![Some(edit)] + records;
    assert(all.drop_first() == records);
}

/// A new reaction adds no message to the chat and no edit; it comes last among
/// the events.
pub proof fn law_reaction_is_no_message(records: Seq<Option<Content>>, c: Content, ts: u64)
    requires
        event_of(c) is Some,
    ensures
        shown_of(seq![Some(c)] + records) == shown_of(records),
        latest_edit(seq![Some(c)] + records, ts) == latest_edit(records, ts),
        events_of(seq![Some(c)] + records) == events_of(records).push(event_of(c)->0),
{
    let all = seq![Some(c)] + records;
    assert(all.drop_first() == records);
}

/// Every message in a chat comes from the history and has a text to show there.
pub proof fn law_shown_messages_have_text(records: Seq<Option<Content>>, i: int)
    requires
        0 <= i < shown_of(records).len(),
    ensures
        is_shown(shown_of(records)[i]),
        records.contains(Some(shown_of(records)[i])),
    decreases records.len(),
{
    let rest = records.drop_first();
    if i < shown_of(rest).len() {
        law_shown_messages_have_text(rest, i);
        let j = choose|j: int| 0 <= j < rest.len() && rest[j] == Some(shown_of(rest)[i]);
        assert(records[j + 1] == Some(shown_of(records)[i]));
    } else {
        assert(records[0] == Some(shown_of(records)[i]));
    }
}

/// Every message that was read was delivered.
pub proof fn law_read_implies_delivered(records: Seq<Option<Content>>, ts: u64)
    requires
        was_read(records, ts),
    ensures
        was_delivered(records, ts),
{
}

/// No receipt is due for a message of one's own, nor for one that was known.
pub proof fn law_acks_are_new_messages_of_others(
    messages: Seq<Content>,
    own_aci: Option<Uuid>,
    known: Set<u64>,
    ts: u64,
)
    ensures
        acks_of(messages, own_aci, known).contains(ts) <==> exists|i: int|
            0 <= i < messages.len() && (#[trigger] messages[i]).timestamp == ts && own_aci != Some(
                messages[i].sender,
            ) && !known.contains(ts),
    decreases messages.len(),
{
    if messages.len() > 0 {
        let before = messages.drop_last();
        let acks = acks_of(before, own_aci, known);
        law_acks_are_new_messages_of_others(before, own_aci, known, ts);
        let m = messages.last();
        if acks_of(messages, own_aci, known).contains(ts) {
            if acks.contains(ts) {
                let i = choose|i: int|
                    0 <= i < before.len() && (#[trigger] before[i]).timestamp == ts && own_aci
                        != Some(before[i].sender) && !known.contains(ts);
                assert(messages[i] == before[i]);
            } else {
                assert(messages[messages.len() - 1].timestamp == ts);
            }
        }
        if exists|i: int|
            0 <= i < messages.len() && (#[trigger] messages[i]).timestamp == ts && own_aci != Some(
                messages[i].sender,
            ) && !known.contains(ts) {
            let i = choose|i: int|
                0 <= i < messages.len() && (#[trigger] messages[i]).timestamp == ts && own_aci
                    != Some(messages[i].sender) && !known.contains(ts);
            let all = acks_of(messages, own_aci, known);
            if i < before.len() {
                assert(before[i] == messages[i]);
                let j = choose|j: int| 0 <= j < acks.len() && acks[j] == ts;
                assert(all[j] == ts);
            } else {
                assert(all[acks.len() as int] == ts);
            }
        }
    }
}

/// Whether two lists show the same messages: from the same senders, of the same
/// times, with the same texts.
pub open spec fn look_alike(a: Seq<Content>, b: Seq<Content>) -> bool {
    &&& a.len() == b.len()
    &&& forall|i: int|
        0 <= i < a.len() ==> (#[trigger] a[i]).sender == b[i].sender && a[i].timestamp
            == b[i].timestamp && body_of(a[i]) == body_of(b[i])
}

/// Whether a content brings an edit of the message with a time stamp: a received
/// one, or one made on another device of ours.
pub open spec fn brings_edit(c: Content, ts: u64, msg: DataMessage) -> bool {
    let edit = EditMessage { target_sent_timestamp: Some(ts), data_message: Some(msg) };
    c.body == ContentBody::EditMessage(edit) || exists|message: Option<DataMessage>|
        c.body == #[trigger] sent_elsewhere(message, Some(edit))
}

/// What another device of ours has sent.
pub open spec fn sent_elsewhere(
    message: Option<DataMessage>,
    edit_message: Option<EditMessage>,
) -> ContentBody {
    ContentBody::SynchronizeMessage { sent: Some(Sent { message, edit_message }) }
}

proof fn lemma_same_texts(
    a: Seq<Content>,
    b: Seq<Content>,
    x: Seq<Option<Content>>,
    y: Seq<Option<Content>>,
    i: int,
)
    requires
        is_chat_of(a, x),
        is_chat_of(b, y),
        0 <= i < a.len(),
        i < b.len(),
        shown_of(x)[i] == shown_of(y)[i],
        latest_edit(x, shown_of(x)[i].timestamp) == latest_edit(y, shown_of(x)[i].timestamp),
    ensures
        a[i].sender == b[i].sender,
        a[i].timestamp == b[i].timestamp,
        body_of(a[i]) == body_of(b[i]),
{
    assert(is_current(
        a[i],
        shown_of(x)[i],
        latest_edit(x, shown_of(x)[i].timestamp),
    ));
    assert(is_current(
        b[i],
        shown_of(y)[i],
        latest_edit(y, shown_of(y)[i].timestamp),
    ));
}

/// A new edit, wherever it was made, gives the message with its time stamp the
/// text that its own message shows, and leaves all else: no message comes or goes,
/// and every other message shows what it did.
pub proof fn law_newest_edit_is_shown(
    records: Seq<Option<Content>>,
    edit: Content,
    ts: u64,
    msg: DataMessage,
    plain: Content,
    before: Seq<Content>,
    after: Seq<Content>,
    i: int,
)
    requires
        brings_edit(edit, ts, msg),
        plain.body == ContentBody::DataMessage(msg),
        is_chat_of(before, records),
        is_chat_of(after, seq![Some(edit)] + records),
        0 <= i < before.len(),
    ensures
        after.len() == before.len(),
        after[i].sender == before[i].sender,
        after[i].timestamp == before[i].timestamp,
        before[i].timestamp == ts && !(before[i].body is CallMessage) && body_of(plain).len() > 0
            ==> body_of(after[i]) == body_of(plain),
        before[i].timestamp != ts ==> body_of(after[i]) == body_of(before[i]),
{
    let all = seq![Some(edit)] + records;
    assert(all.drop_first() == records);
    let m = shown_of(records)[i];
    law_shown_messages_have_text(records, i);
    assert(is_current(before[i], m, latest_edit(records, m.timestamp)));
    assert(is_current(after[i], m, latest_edit(all, m.timestamp)));
    law_edit_replaces_text(records, edit, m.timestamp);
}

/// A new message with a text, from whomever and from whichever device, comes last
/// in the chat; the messages before it show what they did.
pub proof fn law_new_message_comes_last(
    records: Seq<Option<Content>>,
    c: Content,
    msg: DataMessage,
    before: Seq<Content>,
    after: Seq<Content>,
)
    requires
        c.body == ContentBody::DataMessage(msg) || c.body == sent_elsewhere(Some(msg), None),
        msg.reaction is None,
        body_of(c).len() > 0,
        is_chat_of(before, records),
        is_chat_of(after, seq![Some(c)] + records),
    ensures
        after.len() == before.len() + 1,
        look_alike(after.drop_last(), before),
        after.last().sender == c.sender,
        after.last().timestamp == c.timestamp,
        (forall|i: int, text: DataMessage|
            0 <= i < records.len() && records[i] is Some ==> !#[trigger] brings_edit(
                records[i]->0,
                c.timestamp,
                text,
            )) ==> body_of(after.last()) == body_of(c),
{
    let all = seq![Some(c)] + records;
    assert(all.drop_first() == records);
    assert(edit_of(c) is None);
    let n = before.len() as int;
    assert forall|i: int| 0 <= i < n implies (#[trigger] after.drop_last()[i]).sender
        == before[i].sender && after.drop_last()[i].timestamp == before[i].timestamp && body_of(
        after.drop_last()[i],
    ) == body_of(before[i]) by {
        lemma_same_texts(after, before, all, records, i);
    }
    assert(is_current(after[n], c, latest_edit(records, c.timestamp)));
    if forall|i: int, text: DataMessage|
        0 <= i < records.len() && records[i] is Some ==> !#[trigger] brings_edit(
            records[i]->0,
            c.timestamp,
            text,
        ) {
        lemma_no_edit(records, c.timestamp);
    }
}

proof fn lemma_no_edit(records: Seq<Option<Content>>, ts: u64)
    requires
        forall|i: int, text: DataMessage|
            0 <= i < records.len() && records[i] is Some ==> !#[trigger] brings_edit(
                records[i]->0,
                ts,
                text,
            ),
    ensures
        latest_edit(records, ts) is None,
    decreases records.len(),
{
    if records.len() > 0 {
        let rest = records.drop_first();
        assert forall|i: int, text: DataMessage|
            0 <= i < rest.len() && rest[i] is Some implies !#[trigger] brings_edit(
            rest[i]->0,
            ts,
            text,
        ) by {
            assert(rest[i] == records[i + 1]);
            assert(!brings_edit(records[i + 1]->0, ts, text));
        }
        lemma_no_edit(rest, ts);
        if let Some(c) = records[0] {
            if let Some(e) = edit_of(c) {
                if e.0 == ts {
                    let edit = match c.body {
                        ContentBody::EditMessage(x) => x,
                        ContentBody::SynchronizeMessage { sent } => sent->0.edit_message->0,
                        _ => EditMessage { target_sent_timestamp: None, data_message: None },
                    };
                    if let ContentBody::SynchronizeMessage { sent } = c.body {
                        assert(c.body == sent_elsewhere(sent->0.message, Some(edit)));
                    }
                    assert(brings_edit(records[0]->0, ts, edit.data_message->0));
                }
            }
        }
    }
}

/// A new call comes last in the chat; the messages before it show what they did.
pub proof fn law_new_call_comes_last(
    records: Seq<Option<Content>>,
    c: Content,
    before: Seq<Content>,
    after: Seq<Content>,
)
    requires
        c.body is CallMessage,
        is_chat_of(before, records),
        is_chat_of(after, seq![Some(c)] + records),
    ensures
        after.len() == before.len() + 1,
        look_alike(after.drop_last(), before),
        after.last() == c,
{
    reveal_strlit("Call");
    let all = seq![Some(c)] + records;
    assert(all.drop_first() == records);
    let n = before.len() as int;
    assert forall|i: int| 0 <= i < n implies (#[trigger] after.drop_last()[i]).sender
        == before[i].sender && after.drop_last()[i].timestamp == before[i].timestamp && body_of(
        after.drop_last()[i],
    ) == body_of(before[i]) by {
        lemma_same_texts(after, before, all, records, i);
    }
    assert(is_current(after[n], c, latest_edit(records, c.timestamp)));
}

/// A record that cannot be read, a receipt, a reaction, and what has no text leave
/// the messages of the chat as they are; an empty history has none.
pub proof fn law_what_adds_no_message(
    records: Seq<Option<Content>>,
    r: Option<Content>,
    before: Seq<Content>,
    after: Seq<Content>,
)
    requires
        r matches Some(c) ==> edit_of(c) is None && (body_of(c).len() == 0 || (data_message_of(
            c,
        ) is Some && data_message_of(c)->0.reaction is Some)),
        is_chat_of(before, records),
        is_chat_of(after, seq![r] + records),
    ensures
        look_alike(after, before),
        records.len() == 0 ==> before.len() == 0,
{
    let all = seq![r] + records;
    assert(all.drop_first() == records);
    assert forall|i: int| 0 <= i < after.len() implies (#[trigger] after[i]).sender
        == before[i].sender && after[i].timestamp == before[i].timestamp && body_of(after[i])
        == body_of(before[i]) by {
        lemma_same_texts(after, before, all, records, i);
    }
}

/// A new reaction, from whichever device, stands from then on for its sender, its
/// emoji and the message with its time stamp, unless it is a removal: then it
/// stands no longer. All other reactions stay as they were.
pub proof fn law_newest_reaction_stands(
    records: Seq<Option<Content>>,
    c: Content,
    msg: DataMessage,
    r: Reaction,
    t: u64,
    e: Seq<char>,
    s: Uuid,
)
    requires
        c.body == ContentBody::DataMessage(msg) || c.body == sent_elsewhere(Some(msg), None),
        msg.reaction == Some(r),
        r.emoji is Some,
        r.emoji->0@.len() > 0,
        r.target_sent_timestamp is Some,
    ensures
        reacted(events_of(seq![Some(c)] + records), t, e, s) == (if t
            == r.target_sent_timestamp->0 && e == r.emoji->0@ && s == c.sender {
            r.remove != Some(true)
        } else {
            reacted(events_of(records), t, e, s)
        }),
{
    let all = seq![Some(c)] + records;
    assert(all.drop_first() == records);
    let x = event_of(c)->0;
    assert(events_of(all) == events_of(records).push(x));
    assert(events_of(all).drop_last() == events_of(records));
}

/// Nothing but a reaction with an emoji and a target changes the reactions, and at
/// first there are none.
pub proof fn law_what_changes_no_reaction(
    records: Seq<Option<Content>>,
    r: Option<Content>,
    t: u64,
    e: Seq<char>,
    s: Uuid,
)
    requires
        r matches Some(c) ==> edit_of(c) is Some || data_message_of(c) is None || data_message_of(
            c,
        )->0.reaction is None || data_message_of(c)->0.reaction->0.emoji is None
            || data_message_of(c)->0.reaction->0.emoji->0@.len() == 0 || data_message_of(
            c,
        )->0.reaction->0.target_sent_timestamp is None,
    ensures
        reacted(events_of(seq![r] + records), t, e, s) == reacted(events_of(records), t, e, s),
        !reacted(events_of(Seq::empty()), t, e, s),
{
    let all = seq![r] + records;
    assert(all.drop_first() == records);
}

/// A receipt marks the messages with its time stamps: as read if it is for
/// reading, and as delivered in any case. Nothing else marks a message.
pub proof fn law_receipts_mark_messages(records: Seq<Option<Content>>, r: Option<Content>, t: u64)
    ensures
        ({
            let all = seq![r] + records;
            let receipt = r is Some && r->0.body is ReceiptMessage;
            let x = r->0.body->ReceiptMessage_0;
            let named = receipt && x.timestamp@.contains(t);
            &&& was_read(all, t) == (was_read(records, t) || (named && x.kind == Some(1i32)))
            &&& was_delivered(all, t) == (was_delivered(records, t) || (named && (x.kind == Some(
                1i32,
            ) || x.kind == Some(0i32))))
            &&& !was_read(Seq::empty(), t)
            &&& !was_delivered(Seq::empty(), t)
        }),
{
    lemma_receipt_on_top(records, r, 0, t);
    lemma_receipt_on_top(records, r, 1, t);
}

proof fn lemma_receipt_on_top(
    records: Seq<Option<Content>>,
    r: Option<Content>,
    kind: i32,
    t: u64,
)
    ensures
        has_receipt(seq![r] + records, kind, t) == (has_receipt(records, kind, t) || (r is Some
            && is_receipt(r->0, kind, t))),
{
    let all = seq![r] + records;
    if has_receipt(records, kind, t) {
        let i = choose|i: int|
            0 <= i < records.len() && (#[trigger] records[i]) is Some && is_receipt(
                records[i]->0,
                kind,
                t,
            );
        assert(all[i + 1] == records[i]);
    }
    if r is Some && is_receipt(r->0, kind, t) {
        assert(all[0] == r);
    }
    if has_receipt(all, kind, t) {
        let i = choose|i: int|
            0 <= i < all.len() && (#[trigger] all[i]) is Some && is_receipt(all[i]->0, kind, t);
        if i > 0 {
            assert(records[i - 1] == all[i]);
        }
    }
}

/// Receipts are due for the messages in their order: those of two lists are those
/// of the first and then those of the second.
pub proof fn law_acks_keep_the_order(
    a: Seq<Content>,
    b: Seq<Content>,
    m: Content,
    own_aci: Option<Uuid>,
    known: Set<u64>,
)
    ensures
        acks_of(a + b, own_aci, known) == acks_of(a, own_aci, known) + acks_of(b, own_aci, known),
        acks_of(seq![m], own_aci, known) == (if own_aci == Some(m.sender) || known.contains(
            m.timestamp,
        ) {
            Seq::empty()
        } else {
            seq![m.timestamp]
        }),
    decreases b.len(),
{
    reveal_with_fuel(acks_of, 2);
    assert(seq![m].drop_last() == Seq::<Content>::empty());
    if b.len() == 0 {
        assert(a + b == a);
        assert(acks_of(a, own_aci, known) + Seq::<u64>::empty() == acks_of(a, own_aci, known));
    } else {
        law_acks_keep_the_order(a, b.drop_last(), m, own_aci, known);
        assert((a + b).drop_last() == a + b.drop_last());
    }
}

/// The preview is the text of the newest record with one: it comes from a record
/// before which no record has a text, and is missing only if no record has one.
pub proof fn law_preview_is_the_newest_text(records: Seq<Option<Content>>)
    ensures
        newest_preview(records) matches Some(p) ==> exists|i: int|
            {
                &&& 0 <= i < records.len()
                &&& (#[trigger] records[i]) is Some
                &&& body_of(records[i]->0) == p
                &&& p.len() > 0
                &&& forall|j: int|
                    0 <= j < i ==> ((#[trigger] records[j]) is None || body_of(
                        records[j]->0,
                    ).len() == 0)
            },
        newest_preview(records) is None ==> forall|j: int|
            0 <= j < records.len() ==> ((#[trigger] records[j]) is None || body_of(
                records[j]->0,
            ).len() == 0),
    decreases records.len(),
{
    if records.len() > 0 {
        let rest = records.drop_first();
        law_preview_is_the_newest_text(rest);
        if records[0] is Some && body_of(records[0]->0).len() > 0 {
            assert(records[0] is Some);
        } else {
            assert forall|j: int| 1 <= j < records.len() implies #[trigger] records[j] == rest[j
                - 1] by {}
            if let Some(p) = newest_preview(rest) {
                let i = choose|i: int|
                    {
                        &&& 0 <= i < rest.len()
                        &&& (#[trigger] rest[i]) is Some
                        &&& body_of(rest[i]->0) == p
                        &&& p.len() > 0
                        &&& forall|j: int|
                            0 <= j < i ==> ((#[trigger] rest[j]) is None || body_of(
                                rest[j]->0,
                            ).len() == 0)
                    };
                assert(records[i + 1] == rest[i]);
                assert forall|j: int| 0 <= j < i + 1 implies ((#[trigger] records[j]) is None
                    || body_of(records[j]->0).len() == 0) by {
                    if j > 0 {
                        assert(records[j] == rest[j - 1]);
                    }
                }
            } else {
                assert forall|j: int| 0 <= j < records.len() implies ((#[trigger] records[j]) is None
                    || body_of(records[j]->0).len() == 0) by {
                    if j > 0 {
                        assert(records[j] == rest[j - 1]);
                    }
                }
            }
        }
    }
}

/// The time of the newest message is that of the newest record that can be read,
/// if it has one.
pub proof fn law_time_is_the_newest(records: Seq<Option<Content>>, c: Content)
    ensures
        c.timestamp > 0 ==> newest_ts(seq![Some(c)] + records) == c.timestamp,
        body_of(c).len() > 0 ==> newest_ts(seq![Some(c)] + records) == c.timestamp,
        newest_ts(seq![None::<Content>] + records) == newest_ts(records),
        c.timestamp == 0 && body_of(c).len() == 0 ==> newest_ts(seq![Some(c)] + records)
            == newest_ts(records),
        newest_ts(Seq::<Option<Content>>::empty()) == 0,
{
    assert((seq![Some(c)] + records).drop_first() == records);
    assert((seq![None::<Content>] + records).drop_first() == records);
}

/// Only the newest fifty records count: further ones change nothing, and fewer
/// count all.
pub proof fn law_fifty_records_count(records: Seq<Option<Content>>, older: Seq<Option<Content>>)
    ensures
        records.len() >= 50 ==> newest_fifty(records + older) == newest_fifty(records),
        records.len() <= 50 ==> newest_fifty(records) == records,
{
    if records.len() >= 50 {
        assert((records + older).take(50) == records.take(50));
    }
    if records.len() <= 50 {
        assert(records.take(records.len() as int) == records);
    }
}

} // verus!
