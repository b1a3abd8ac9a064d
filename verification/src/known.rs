//! The accounts and groups that messages came from, and the files that keep
//! them: one block of 16 bytes for each account, one of 32 for each group.

use vstd::prelude::*;

use crate::content::{Content, Received};
use crate::ids::{
    be_value, key_bytes, lemma_u128_bytes, push_u128, read_u128, u128_bytes, GroupKey, Thread, Uuid,
};
use crate::path::{join_path, joined};

verus! {

/// The sequence without what occurs earlier in it.
pub open spec fn distinct<T>(s: Seq<T>) -> Seq<T>
    decreases s.len(),
{
    if s.len() == 0 {
        Seq::empty()
    } else if s.drop_last().contains(s.last()) {
        distinct(s.drop_last())
    } else {
        distinct(s.drop_last()).push(s.last())
    }
}

proof fn lemma_distinct_contains<T>(s: Seq<T>, x: T)
    ensures
        distinct(s).contains(x) == s.contains(x),
    decreases s.len(),
{
    if s.len() > 0 {
        lemma_distinct_contains(s.drop_last(), x);
        lemma_distinct_contains(s.drop_last(), s.last());
        assert(s == s.drop_last().push(s.last()));
        let d = distinct(s.drop_last());
        assert(s.drop_last().push(s.last()).contains(x) == (s.drop_last().contains(x) || x
            == s.last())) by {
            if s.drop_last().contains(x) {
                let i = s.drop_last().index_of(x);
                assert(s[i] == x);
            }
            if x == s.last() {
                assert(s[s.len() - 1] == x);
            }
            if s.contains(x) && x != s.last() {
                let i = s.index_of(x);
                assert(s.drop_last()[i] == x);
            }
        }
        assert(d.push(s.last()).contains(x) == (d.contains(x) || x == s.last())) by {
            if d.contains(x) {
                let i = d.index_of(x);
                assert(d.push(s.last())[i] == x);
            }
            if x == s.last() {
                assert(d.push(s.last())[d.len() as int] == x);
            }
            if d.push(s.last()).contains(x) && x != s.last() {
                let i = d.push(s.last()).index_of(x);
                assert(d[i] == x);
            }
        }
    }
}

/// Nothing occurs twice, and nothing is lost.
pub proof fn law_distinct<T>(s: Seq<T>)
    ensures
        distinct(s).no_duplicates(),
        forall|x: T| #[trigger] distinct(s).contains(x) == s.contains(x),
        s.no_duplicates() ==> distinct(s) == s,
    decreases s.len(),
{
    assert forall|x: T| #[trigger] distinct(s).contains(x) == s.contains(x) by {
        lemma_distinct_contains(s, x);
    }
    if s.len() > 0 {
        law_distinct(s.drop_last());
        lemma_distinct_contains(s.drop_last(), s.last());
        let d = distinct(s.drop_last());
        if !s.drop_last().contains(s.last()) {
            assert forall|i: int, j: int|
                0 <= i < d.len() + 1 && 0 <= j < d.len() + 1 && i != j implies d.push(s.last())[i]
                != d.push(s.last())[j] by {
                if i < d.len() {
                    assert(d.contains(d[i]));
                }
                if j < d.len() {
                    assert(d.contains(d[j]));
                }
            }
        }
        if s.no_duplicates() {
            assert(!s.drop_last().contains(s.last()));
            assert(s.drop_last().no_duplicates());
            assert(s.drop_last().push(s.last()) == s);
        }
    }
}

fn insert_uuid(set: &mut Vec<Uuid>, uuid: Uuid)
    ensures
        final(set)@ == (if old(set)@.contains(uuid) {
            old(set)@
        } else {
            old(set)@.push(uuid)
        }),
{
    let n = set.len();
    let mut i: usize = 0;
    while i < n
        invariant
            i <= n == set@.len(),
            set@ == old(set)@,
            forall|j: int| 0 <= j < i ==> set@[j] != uuid,
        decreases n - i,
    {
        if set[i] == uuid {
            proof {
                assert(set@[i as int] == uuid);
            }
            return ;
        }
        i += 1;
    }
    set.push(uuid);
}

fn insert_key(set: &mut Vec<GroupKey>, key: GroupKey)
    ensures
        final(set)@ == (if old(set)@.contains(key) {
            old(set)@
        } else {
            old(set)@.push(key)
        }),
{
    let n = set.len();
    let mut i: usize = 0;
    while i < n
        invariant
            i <= n == set@.len(),
            set@ == old(set)@,
            forall|j: int| 0 <= j < i ==> set@[j] != key,
        decreases n - i,
    {
        if set[i] == key {
            proof {
                assert(set@[i as int] == key);
            }
            return ;
        }
        i += 1;
    }
    set.push(key);
}

// ── Accounts ─────────────────────────────────────────────────────────────────

/// The accounts in a file, block by block; bytes after the last whole block do
/// not count.
pub open spec fn uuid_blocks(bytes: Seq<u8>) -> Seq<Uuid> {
    Seq::new(
        bytes.len() / 16,
        |i: int| Uuid { value: be_value(bytes.subrange(16 * i, 16 * i + 16)) as u128 },
    )
}

/// The file that holds the given accounts.
pub open spec fn uuid_file(uuids: Seq<Uuid>) -> Seq<u8>
    decreases uuids.len(),
{
    if uuids.len() == 0 {
        Seq::empty()
    } else {
        uuid_file(uuids.drop_last()) + u128_bytes(uuids.last().value)
    }
}

/// The accounts in the contents of a file, each once.
pub fn load_contact_uuids(bytes: &Vec<u8>) -> (r: Vec<Uuid>)
    ensures
        r@ == distinct(uuid_blocks(bytes@)),
{
    let len = bytes.len();
    let n = len / 16;
    let ghost all = uuid_blocks(bytes@);
    let mut out: Vec<Uuid> = Vec::new();
    let mut i: usize = 0;
    proof {
        assert(all.take(0) == Seq::<Uuid>::empty());
    }
    while i < n
        invariant
            len == bytes@.len(),
            i <= n == len / 16,
            all == uuid_blocks(bytes@),
            out@ == distinct(all.take(i as int)),
        decreases n - i,
    {
        let u = Uuid { value: read_u128(bytes, 16 * i) };
        proof {
            assert(all.take(i + 1).drop_last() == all.take(i as int));
            assert(u == all[i as int]);
            lemma_distinct_contains(all.take(i as int), u);
        }
        insert_uuid(&mut out, u);
        i += 1;
    }
    proof {
        assert(all.take(n as int) == all);
    }
    out
}

/// The contents of the file that holds the given accounts.
pub fn save_contact_uuids(uuids: &Vec<Uuid>) -> (r: Vec<u8>)
    ensures
        r@ == uuid_file(uuids@),
{
    let n = uuids.len();
    let mut out: Vec<u8> = Vec::new();
    let mut i: usize = 0;
    while i < n
        invariant
            i <= n == uuids@.len(),
            out@ == uuid_file(uuids@.take(i as int)),
        decreases n - i,
    {
        proof {
            assert(uuids@.take(i + 1).drop_last() == uuids@.take(i as int));
        }
        push_u128(&mut out, uuids[i].value);
        i += 1;
    }
    proof {
        assert(uuids@.take(n as int) == uuids@);
    }
    out
}

proof fn lemma_uuid_file(uuids: Seq<Uuid>)
    ensures
        uuid_file(uuids).len() == 16 * uuids.len(),
        uuid_blocks(uuid_file(uuids)) == uuids,
    decreases uuids.len(),
{
    if uuids.len() > 0 {
        let rest = uuid_file(uuids.drop_last());
        let last = u128_bytes(uuids.last().value);
        lemma_uuid_file(uuids.drop_last());
        lemma_u128_bytes(uuids.last().value);
        let all = rest + last;
        let n = uuids.len() as int;
        assert forall|i: int| 0 <= i < n implies #[trigger] uuid_blocks(all)[i] == uuids[i] by {
            let part = all.subrange(16 * i, 16 * i + 16);
            if i < n - 1 {
                assert(part == rest.subrange(16 * i, 16 * i + 16));
                assert(uuid_blocks(rest)[i] == uuids.drop_last()[i]);
            } else {
                assert(part == last);
            }
        }
        assert(uuid_blocks(all) == uuids);
    } else {
        assert(uuid_blocks(uuid_file(uuids)) == uuids);
    }
}

/// A set of accounts is read back from its file as it was.
pub proof fn law_contacts_read_back(uuids: Seq<Uuid>)
    requires
        uuids.no_duplicates(),
    ensures
        distinct(uuid_blocks(uuid_file(uuids))) == uuids,
{
    lemma_uuid_file(uuids);
    law_distinct(uuids);
}

/// Adds accounts to those known.
pub fn merge_contacts(known: Vec<Uuid>, seen: &Vec<Uuid>) -> (r: Vec<Uuid>)
    requires
        known@.no_duplicates(),
    ensures
        r@ == distinct(known@ + seen@),
        r@.no_duplicates(),
{
    let ghost before = known@;
    let mut known = known;
    let n = seen.len();
    let mut i: usize = 0;
    proof {
        law_distinct(before);
        assert(before + seen@.take(0) == before);
    }
    while i < n
        invariant
            i <= n == seen@.len(),
            known@ == distinct(before + seen@.take(i as int)),
        decreases n - i,
    {
        let ghost sofar = before + seen@.take(i as int);
        proof {
            assert((before + seen@.take(i + 1)).drop_last() == sofar);
            assert((before + seen@.take(i + 1)).last() == seen@[i as int]);
            lemma_distinct_contains(sofar, seen@[i as int]);
        }
        insert_uuid(&mut known, seen[i]);
        i += 1;
    }
    proof {
        assert(seen@.take(n as int) == seen@);
        law_distinct(before + seen@);
    }
    known
}

// ── Groups ───────────────────────────────────────────────────────────────────

/// The keys in a file, block by block; bytes after the last whole block do not
/// count.
pub open spec fn key_blocks(bytes: Seq<u8>) -> Seq<GroupKey> {
    Seq::new(
        bytes.len() / 32,
        |i: int|
            GroupKey {
                high: be_value(bytes.subrange(32 * i, 32 * i + 16)) as u128,
                low: be_value(bytes.subrange(32 * i + 16, 32 * i + 32)) as u128,
            },
    )
}

/// The file that holds the given keys.
pub open spec fn key_file(keys: Seq<GroupKey>) -> Seq<u8>
    decreases keys.len(),
{
    if keys.len() == 0 {
        Seq::empty()
    } else {
        key_file(keys.drop_last()) + key_bytes(keys.last())
    }
}

/// The keys in the contents of a file, each once.
pub fn load_group_keys(bytes: &Vec<u8>) -> (r: Vec<GroupKey>)
    ensures
        r@ == distinct(key_blocks(bytes@)),
{
    let len = bytes.len();
    let n = len / 32;
    let ghost all = key_blocks(bytes@);
    let mut out: Vec<GroupKey> = Vec::new();
    let mut i: usize = 0;
    proof {
        assert(all.take(0) == Seq::<GroupKey>::empty());
    }
    while i < n
        invariant
            len == bytes@.len(),
            i <= n == len / 32,
            all == key_blocks(bytes@),
            out@ == distinct(all.take(i as int)),
        decreases n - i,
    {
        let k = GroupKey {
            high: read_u128(bytes, 32 * i),
            low: read_u128(bytes, 32 * i + 16),
        };
        proof {
            assert(all.take(i + 1).drop_last() == all.take(i as int));
            assert(k == all[i as int]);
            lemma_distinct_contains(all.take(i as int), k);
        }
        insert_key(&mut out, k);
        i += 1;
    }
    proof {
        assert(all.take(n as int) == all);
    }
    out
}

/// The contents of the file that holds the given keys.
pub fn save_group_keys(keys: &Vec<GroupKey>) -> (r: Vec<u8>)
    ensures
        r@ == key_file(keys@),
{
    let n = keys.len();
    let mut out: Vec<u8> = Vec::new();
    let mut i: usize = 0;
    while i < n
        invariant
            i <= n == keys@.len(),
            out@ == key_file(keys@.take(i as int)),
        decreases n - i,
    {
        proof {
            assert(keys@.take(i + 1).drop_last() == keys@.take(i as int));
        }
        let mut bytes = keys[i].to_bytes();
        out.append(&mut bytes);
        i += 1;
    }
    proof {
        assert(keys@.take(n as int) == keys@);
    }
    out
}

proof fn lemma_key_file(keys: Seq<GroupKey>)
    ensures
        key_file(keys).len() == 32 * keys.len(),
        key_blocks(key_file(keys)) == keys,
    decreases keys.len(),
{
    if keys.len() > 0 {
        let rest = key_file(keys.drop_last());
        let last = key_bytes(keys.last());
        lemma_key_file(keys.drop_last());
        lemma_u128_bytes(keys.last().high);
        lemma_u128_bytes(keys.last().low);
        let all = rest + last;
        let n = keys.len() as int;
        assert forall|i: int| 0 <= i < n implies #[trigger] key_blocks(all)[i] == keys[i] by {
            let high = all.subrange(32 * i, 32 * i + 16);
            let low = all.subrange(32 * i + 16, 32 * i + 32);
            if i < n - 1 {
                assert(high == rest.subrange(32 * i, 32 * i + 16));
                assert(low == rest.subrange(32 * i + 16, 32 * i + 32));
                assert(key_blocks(rest)[i] == keys.drop_last()[i]);
            } else {
                assert(high == u128_bytes(keys.last().high));
                assert(low == u128_bytes(keys.last().low));
            }
        }
        assert(key_blocks(all) == keys);
    } else {
        assert(key_blocks(key_file(keys)) == keys);
    }
}

/// A set of group keys is read back from its file as it was.
pub proof fn law_groups_read_back(keys: Seq<GroupKey>)
    requires
        keys.no_duplicates(),
    ensures
        distinct(key_blocks(key_file(keys))) == keys,
{
    lemma_key_file(keys);
    law_distinct(keys);
}

/// Adds group keys to those known.
pub fn merge_groups(known: Vec<GroupKey>, seen: &Vec<GroupKey>) -> (r: Vec<GroupKey>)
    requires
        known@.no_duplicates(),
    ensures
        r@ == distinct(known@ + seen@),
        r@.no_duplicates(),
{
    let ghost before = known@;
    let mut known = known;
    let n = seen.len();
    let mut i: usize = 0;
    proof {
        law_distinct(before);
        assert(before + seen@.take(0) == before);
    }
    while i < n
        invariant
            i <= n == seen@.len(),
            known@ == distinct(before + seen@.take(i as int)),
        decreases n - i,
    {
        let ghost sofar = before + seen@.take(i as int);
        proof {
            assert((before + seen@.take(i + 1)).drop_last() == sofar);
            assert((before + seen@.take(i + 1)).last() == seen@[i as int]);
            lemma_distinct_contains(sofar, seen@[i as int]);
        }
        insert_key(&mut known, seen[i]);
        i += 1;
    }
    proof {
        assert(seen@.take(n as int) == seen@);
        law_distinct(before + seen@);
    }
    known
}

// ── Catching up ──────────────────────────────────────────────────────────────

/// Where the client keeps its files, and who it belongs to.
pub struct SyncState {
    pub data_dir: String,
    pub own_aci: Option<Uuid>,
}

impl SyncState {
    /// The file of the known groups.
    pub fn groups_path(&self) -> (r: String)
        ensures
            r@ == joined(self.data_dir@, "known_groups"@),
    {
        proof {
            reveal_strlit("known_groups");
        }
        join_path(self.data_dir.as_str(), "known_groups")
    }

    /// The file of the known accounts.
    pub fn contacts_path(&self) -> (r: String)
        ensures
            r@ == joined(self.data_dir@, "known_contacts"@),
    {
        proof {
            reveal_strlit("known_contacts");
        }
        join_path(self.data_dir.as_str(), "known_contacts")
    }
}

/// The groups and accounts that the waiting messages came from.
pub struct Backlog {
    pub groups: Vec<GroupKey>,
    pub contacts: Vec<Uuid>,
}

/// The groups that events came from.
pub open spec fn groups_seen(events: Seq<Received>) -> Seq<GroupKey>
    decreases events.len(),
{
    if events.len() == 0 {
        Seq::empty()
    } else {
        let before = groups_seen(events.drop_last());
        match events.last() {
            Received::Content(Content { thread: Some(Thread::Group(key)), .. }) => before.push(key),
            _ => before,
        }
    }
}

/// The accounts other than the owner's that events came from.
pub open spec fn contacts_seen(events: Seq<Received>, own_aci: Uuid) -> Seq<Uuid>
    decreases events.len(),
{
    if events.len() == 0 {
        Seq::empty()
    } else {
        let before = contacts_seen(events.drop_last(), own_aci);
        match events.last() {
            Received::Content(Content { thread: Some(Thread::Contact(sid)), .. }) => if sid.uuid()
                != own_aci {
                before.push(sid.uuid())
            } else {
                before
            },
            _ => before,
        }
    }
}

impl Backlog {
    /// Whether this is what the given events leave behind.
    pub open spec fn is_of(self, events: Seq<Received>, own_aci: Uuid) -> bool {
        &&& self.groups@ == distinct(groups_seen(events))
        &&& self.contacts@ == distinct(contacts_seen(events, own_aci))
    }

    /// Nothing seen yet.
    pub fn new() -> (r: Backlog)
        ensures
            r.groups@ == Seq::<GroupKey>::empty(),
            r.contacts@ == Seq::<Uuid>::empty(),
            forall|own_aci: Uuid| #[trigger] r.is_of(Seq::empty(), own_aci),
    {
        Backlog { groups: Vec::new(), contacts: Vec::new() }
    }

    /// Takes the next event; says whether the backlog goes on behind it.
    pub fn observe(&mut self, event: &Received, own_aci: Uuid) -> (more: bool)
        ensures
            more == !(event is QueueEmpty),
            forall|events: Seq<Received>|
                old(self).is_of(events, own_aci) ==> #[trigger] final(self).is_of(
                    events.push(*event),
                    own_aci,
                ),
    {
        proof {
            assert forall|events: Seq<Received>|
                #![trigger events.push(*event)]
                events.push(*event).drop_last() == events && events.push(*event).last()
                    == *event by {}
        }
        match event {
            Received::QueueEmpty => false,
            Received::Contacts => true,
            Received::Content(content) => {
                match content.thread {
                    Some(Thread::Group(key)) => {
                        proof {
                            assert forall|events: Seq<Received>|
                                #![trigger events.push(*event)]
                                true implies distinct(groups_seen(events)).contains(key)
                                == groups_seen(events).contains(key) && groups_seen(
                                events,
                            ).push(key).drop_last() == groups_seen(events) by {
                                lemma_distinct_contains(groups_seen(events), key);
                            }
                        }
                        insert_key(&mut self.groups, key);
                    },
                    Some(Thread::Contact(sid)) => {
                        let uuid = sid.raw_uuid();
                        if uuid != own_aci {
                            proof {
                                assert forall|events: Seq<Received>|
                                    #![trigger events.push(*event)]
                                    true implies distinct(contacts_seen(events, own_aci)).contains(uuid)
                                    == contacts_seen(events, own_aci).contains(uuid)
                                    && contacts_seen(events, own_aci).push(uuid).drop_last()
                                    == contacts_seen(events, own_aci) by {
                                    lemma_distinct_contains(contacts_seen(events, own_aci), uuid);
                                }
                            }
                            insert_uuid(&mut self.contacts, uuid);
                        }
                    },
                    None => {},
                }
                true
            },
        }
    }
}

/// Where the fetching of the contact list stands.
#[derive(Clone, Copy, Debug, PartialEq, Eq, Structural)]
pub enum ContactSync {
    /// The waiting messages are passed over.
    Draining,
    /// The list was asked for.
    Waiting,
}

/// What to do next to fetch the contact list.
#[derive(Clone, Copy, Debug, PartialEq, Eq, Structural)]
pub enum ContactSyncStep {
    Continue,
    /// Ask for the list, then wait for it.
    Request,
    Done,
}

/// What the next event, or the end of the stream, means for the fetching of the
/// contact list: the list itself ends it at any time; while it is waited for,
/// so does the end of the stream.
pub fn sync_contacts(state: ContactSync, event: &Option<Received>) -> (r: ContactSyncStep)
    ensures
        r == (match (state, *event) {
            (_, Some(Received::Contacts)) => ContactSyncStep::Done,
            (ContactSync::Draining, Some(Received::QueueEmpty)) => ContactSyncStep::Request,
            (ContactSync::Waiting, None) => ContactSyncStep::Done,
            _ => ContactSyncStep::Continue,
        }),
{
    match event {
        Some(Received::Contacts) => ContactSyncStep::Done,
        Some(Received::QueueEmpty) => match state {
            ContactSync::Draining => ContactSyncStep::Request,
            ContactSync::Waiting => ContactSyncStep::Continue,
        },
        Some(Received::Content(_)) => ContactSyncStep::Continue,
        None => match state {
            ContactSync::Draining => ContactSyncStep::Continue,
            ContactSync::Waiting => ContactSyncStep::Done,
        },
    }
}

// ── Laws ─────────────────────────────────────────────────────────────────────

/// A file of accounts is its blocks of sixteen bytes, one for each in order, each as it
/// was written; what is left at its end is passed over.
pub proof fn law_account_file_is_read_by_blocks(uuids: Seq<Uuid>, tail: Seq<u8>, i: int)
    requires
        tail.len() < 16,
        0 <= i < uuids.len(),
    ensures
        uuid_file(uuids).len() == 16 * uuids.len(),
        uuid_blocks(uuid_file(uuids) + tail).len() == uuids.len(),
        uuid_blocks(uuid_file(uuids) + tail)[i] == uuids[i],
        uuid_file(uuids).subrange(16 * i, 16 * i + 16) == u128_bytes(uuids[i].value),
{
    lemma_uuid_file_block(uuids, i);
    lemma_u128_bytes(uuids[i].value);
    let f = uuid_file(uuids);
    assert((f + tail).subrange(16 * i, 16 * i + 16) == f.subrange(16 * i, 16 * i + 16));
}

proof fn lemma_uuid_file_block(uuids: Seq<Uuid>, i: int)
    requires
        0 <= i <= uuids.len(),
    ensures
        uuid_file(uuids).len() == 16 * uuids.len(),
        i < uuids.len() ==> uuid_file(uuids).subrange(16 * i, 16 * i + 16) == u128_bytes(
            uuids[i].value,
        ),
    decreases uuids.len(),
{
    if uuids.len() > 0 {
        let rest = uuids.drop_last();
        let f = uuid_file(rest);
        lemma_u128_bytes(uuids.last().value);
        let k = if i < rest.len() {
            i
        } else {
            0
        };
        lemma_uuid_file_block(rest, k);
        if i < rest.len() {
            assert(uuid_file(uuids).subrange(16 * i, 16 * i + 16) == f.subrange(
                16 * i,
                16 * i + 16,
            ));
        } else if i == rest.len() {
            assert(uuid_file(uuids).subrange(16 * i, 16 * i + 16) == u128_bytes(
                uuids.last().value,
            ));
        }
    }
}

/// A file of groups is its blocks of thirty-two bytes, one for each in order, each as
/// it was written; what is left at its end is passed over.
pub proof fn law_group_file_is_read_by_blocks(keys: Seq<GroupKey>, tail: Seq<u8>, i: int)
    requires
        tail.len() < 32,
        0 <= i < keys.len(),
    ensures
        key_file(keys).len() == 32 * keys.len(),
        key_blocks(key_file(keys) + tail).len() == keys.len(),
        key_blocks(key_file(keys) + tail)[i] == keys[i],
{
    lemma_key_file_block(keys, i);
    lemma_u128_bytes(keys[i].high);
    lemma_u128_bytes(keys[i].low);
    let f = key_file(keys) + tail;
    let block = key_file(keys).subrange(32 * i, 32 * i + 32);
    assert(f.subrange(32 * i, 32 * i + 16) == block.take(16));
    assert(f.subrange(32 * i + 16, 32 * i + 32) == block.skip(16));
    assert(block.take(16) == u128_bytes(keys[i].high));
    assert(block.skip(16) == u128_bytes(keys[i].low));
}

proof fn lemma_key_file_block(keys: Seq<GroupKey>, i: int)
    requires
        0 <= i <= keys.len(),
    ensures
        key_file(keys).len() == 32 * keys.len(),
        i < keys.len() ==> key_file(keys).subrange(32 * i, 32 * i + 32) == key_bytes(keys[i]),
    decreases keys.len(),
{
    if keys.len() > 0 {
        let rest = keys.drop_last();
        let f = key_file(rest);
        lemma_u128_bytes(keys.last().high);
        lemma_u128_bytes(keys.last().low);
        let k = if i < rest.len() {
            i
        } else {
            0
        };
        lemma_key_file_block(rest, k);
        if i < rest.len() {
            assert(key_file(keys).subrange(32 * i, 32 * i + 32) == f.subrange(
                32 * i,
                32 * i + 32,
            ));
        } else if i == rest.len() {
            assert(key_file(keys).subrange(32 * i, 32 * i + 32) == key_bytes(keys.last()));
        }
    }
}

/// Every content that waits is noted by where it belongs: a group by its key, a contact
/// by its account unless it is the owner's. Nothing else is noted.
pub proof fn law_backlog_notes_where_messages_belong(
    events: Seq<Received>,
    c: Content,
    other: Received,
    own_aci: Uuid,
)
    requires
        other is QueueEmpty || other is Contacts,
    ensures
        ({
            let all = events.push(Received::Content(c));
            let groups = groups_seen(events);
            let contacts = contacts_seen(events, own_aci);
            &&& c.thread matches Some(Thread::Group(key)) ==> groups_seen(all) == groups.push(key)
                && contacts_seen(all, own_aci) == contacts
            &&& c.thread matches Some(Thread::Contact(sid)) ==> groups_seen(all) == groups
                && contacts_seen(all, own_aci) == (if sid.uuid() == own_aci {
                contacts
            } else {
                contacts.push(sid.uuid())
            })
            &&& c.thread is None ==> groups_seen(all) == groups && contacts_seen(all, own_aci)
                == contacts
            &&& groups_seen(events.push(other)) == groups
            &&& contacts_seen(events.push(other), own_aci) == contacts
            &&& groups_seen(Seq::empty()).len() == 0
            &&& contacts_seen(Seq::empty(), own_aci).len() == 0
        }),
{
    assert(events.push(Received::Content(c)).drop_last() == events);
    assert(events.push(other).drop_last() == events);
}

} // verus!
