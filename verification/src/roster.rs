//! Contacts, groups and the lists of threads made of them.

use vstd::prelude::*;
use vstd::relations::{sorted_by, strongly_connected, transitive};

use crate::content::Content;
use crate::history::{last_message, newest_fifty, newest_preview, newest_ts};
use crate::ids::{uuid_text, GroupKey, ServiceId, Thread, Uuid};
use crate::order::{
    is_stable_sort, law_stable_sort_determined, lemma_lex_total, lemma_lex_transitive,
    lemma_sort_by_keys, lemma_stable_sort_keeps, lex_le, orders, picked, stable_order, Recency,
};
use crate::text::{copy_opt, lower, lower_of, same};

verus! {

/// A line of the chat list or of the contact browser.
pub struct ThreadEntry {
    pub thread: Thread,
    pub name: String,
    pub last_preview: Option<String>,
    pub last_ts: u64,
    pub unread: bool,
}

/// The contents of a thread entry.
pub struct ThreadView {
    pub thread: Thread,
    pub name: Seq<char>,
    pub last_preview: Option<Seq<char>>,
    pub last_ts: u64,
    pub unread: bool,
}

/// The contents of an optional string.
pub open spec fn opt_text(s: Option<String>) -> Option<Seq<char>> {
    match s {
        Some(t) => Some(t@),
        None => None,
    }
}

impl View for ThreadEntry {
    type V = ThreadView;

    open spec fn view(&self) -> ThreadView {
        ThreadView {
            thread: self.thread,
            name: self.name@,
            last_preview: opt_text(self.last_preview),
            last_ts: self.last_ts,
            unread: self.unread,
        }
    }
}

/// The contents of a list of thread entries.
pub open spec fn entry_views(s: Seq<ThreadEntry>) -> Seq<ThreadView> {
    s.map_values(|e: ThreadEntry| e@)
}

/// A contact as the store holds it.
pub struct Contact {
    pub uuid: Uuid,
    pub name: String,
    /// The phone number as it is written.
    pub phone_number: Option<String>,
}

// ── Names ────────────────────────────────────────────────────────────────────

/// The name that a contact is shown by: the name, else the phone number, else
/// the identifier.
pub open spec fn display_name_of(c: Contact) -> Seq<char> {
    if c.name@.len() > 0 {
        c.name@
    } else {
        match c.phone_number {
            Some(p) => p@,
            None => uuid_text(c.uuid),
        }
    }
}

/// The name that a contact is shown by.
pub fn contact_display_name(contact: &Contact) -> (r: String)
    ensures
        r@ == display_name_of(*contact),
{
    if !contact.name.as_str().is_empty() {
        return contact.name.clone();
    }
    match &contact.phone_number {
        Some(p) => p.clone(),
        None => contact.uuid.text(),
    }
}

/// Whether a contact has neither a name nor a phone number.
pub fn needs_profile_fetch(contact: &Contact) -> (r: bool)
    ensures
        r == (contact.name@.len() == 0 && contact.phone_number is None),
{
    contact.name.as_str().is_empty() && contact.phone_number.is_none()
}

/// The name for an account: that of its contact, if the store has one, else the
/// identifier.
pub open spec fn name_of(contact: Option<Contact>, uuid: Uuid) -> Seq<char> {
    match contact {
        Some(c) => display_name_of(c),
        None => uuid_text(uuid),
    }
}

/// The name for an account: that of its contact, if the store has one, else the
/// identifier.
pub fn lookup_contact_name(contact: &Option<Contact>, uuid: Uuid) -> (r: String)
    ensures
        r@ == name_of(*contact, uuid),
{
    match contact {
        Some(c) => contact_display_name(c),
        None => uuid.text(),
    }
}

// ── Sorting ──────────────────────────────────────────────────────────────────

/// Later messages first.
pub open spec fn more_recent() -> spec_fn(ThreadView, ThreadView) -> bool {
    |a: ThreadView, b: ThreadView| a.last_ts >= b.last_ts
}

/// By name, upper and lower case alike.
pub open spec fn by_name() -> spec_fn(ThreadView, ThreadView) -> bool {
    |a: ThreadView, b: ThreadView| lex_le(lower_of(a.name), lower_of(b.name))
}

/// Of two entries one may stand first, in either order, and both orders are
/// transitive.
proof fn lemma_entry_orders()
    ensures
        strongly_connected(more_recent()),
        transitive(more_recent()),
        strongly_connected(by_name()),
        transitive(by_name()),
{
    assert forall|a: ThreadView, b: ThreadView| #[trigger] by_name()(a, b) || #[trigger] by_name()(
        b,
        a,
    ) by {
        lemma_lex_total(lower_of(a.name), lower_of(b.name));
    }
    assert forall|a: ThreadView, b: ThreadView, c: ThreadView|
        #[trigger] by_name()(a, b) && #[trigger] by_name()(b, c) implies by_name()(a, c) by {
        lemma_lex_transitive(lower_of(a.name), lower_of(b.name), lower_of(c.name));
    }
}

fn copy_entry(e: &ThreadEntry) -> (r: ThreadEntry)
    ensures
        r == *e,
{
    ThreadEntry {
        thread: e.thread,
        name: e.name.clone(),
        last_preview: copy_opt(&e.last_preview),
        last_ts: e.last_ts,
        unread: e.unread,
    }
}

fn pick_entries(entries: &Vec<ThreadEntry>, perm: &Vec<usize>) -> (r: Vec<ThreadEntry>)
    requires
        forall|i: int| 0 <= i < perm@.len() ==> (#[trigger] perm@[i]) < entries@.len(),
    ensures
        r@ == picked(entries@, perm@),
{
    let n = perm.len();
    let mut out: Vec<ThreadEntry> = Vec::new();
    let mut i: usize = 0;
    while i < n
        invariant
            i <= n == perm@.len(),
            forall|i: int| 0 <= i < perm@.len() ==> (#[trigger] perm@[i]) < entries@.len(),
            out@.len() == i,
            forall|j: int| 0 <= j < i ==> (#[trigger] out@[j]) == entries@[perm@[j] as int],
        decreases n - i,
    {
        out.push(copy_entry(&entries[perm[i]]));
        i += 1;
    }
    proof {
        assert(out@ == picked(entries@, perm@));
    }
    out
}

/// Puts thread entries in the order of their last message, latest first.
pub fn sort_by_recency(entries: &Vec<ThreadEntry>) -> (r: Vec<ThreadEntry>)
    ensures
        is_stable_sort(entry_views(entries@), entry_views(r@), more_recent()),
        r@.len() == entries@.len(),
{
    let n = entries.len();
    let mut keys: Vec<Recency> = Vec::new();
    let mut i: usize = 0;
    while i < n
        invariant
            i <= n == entries@.len(),
            keys@.len() == i,
            forall|j: int| 0 <= j < i ==> (#[trigger] keys@[j]).ts == entries@[j].last_ts,
        decreases n - i,
    {
        keys.push(Recency { ts: entries[i].last_ts });
        i += 1;
    }
    let perm = stable_order(&keys);
    let out = pick_entries(entries, &perm);
    proof {
        let views = entry_views(entries@);
        assert forall|i: int, j: int|
            #![trigger keys@[i], keys@[j]]
            0 <= i < views.len() && 0 <= j < views.len() implies crate::order::Rank::le(
            &keys@[i],
            &keys@[j],
        ) == more_recent()(views[i], views[j]) by {}
        lemma_sort_by_keys(keys@, perm@, views, more_recent());
        assert(entry_views(out@) == picked(views, perm@));
    }
    out
}

/// Puts thread entries in the order of their names, upper and lower case alike.
pub fn sort_by_name(entries: &Vec<ThreadEntry>) -> (r: Vec<ThreadEntry>)
    ensures
        is_stable_sort(entry_views(entries@), entry_views(r@), by_name()),
        r@.len() == entries@.len(),
{
    let n = entries.len();
    let mut keys: Vec<String> = Vec::new();
    let mut i: usize = 0;
    while i < n
        invariant
            i <= n == entries@.len(),
            keys@.len() == i,
            forall|j: int| 0 <= j < i ==> (#[trigger] keys@[j])@ == lower_of(entries@[j].name@),
        decreases n - i,
    {
        keys.push(lower(entries[i].name.as_str()));
        i += 1;
    }
    let perm = stable_order(&keys);
    let out = pick_entries(entries, &perm);
    proof {
        let views = entry_views(entries@);
        assert forall|i: int, j: int|
            #![trigger keys@[i], keys@[j]]
            0 <= i < views.len() && 0 <= j < views.len() implies crate::order::Rank::le(
            &keys@[i],
            &keys@[j],
        ) == by_name()(views[i], views[j]) by {}
        lemma_sort_by_keys(keys@, perm@, views, by_name());
        assert(entry_views(out@) == picked(views, perm@));
    }
    out
}

// ── The chat list ────────────────────────────────────────────────────────────

/// A stored contact with its records, newest first.
pub struct StoredContact {
    pub contact: Contact,
    pub records: Vec<Option<Content>>,
}

/// An account that a message came from, with its contact, if one is stored, and
/// its records, newest first.
pub struct KnownContact {
    pub uuid: Uuid,
    pub contact: Option<Contact>,
    pub records: Vec<Option<Content>>,
}

/// A stored group with its records, newest first.
pub struct StoredGroup {
    pub key: GroupKey,
    pub title: String,
    pub records: Vec<Option<Content>>,
}

/// The thread with an account.
pub open spec fn contact_thread(uuid: Uuid) -> Thread {
    Thread::Contact(ServiceId::Aci(uuid))
}

/// The line of the chat list for a thread, if it has messages.
pub open spec fn thread_line(
    thread: Thread,
    name: Seq<char>,
    records: Seq<Option<Content>>,
) -> Option<ThreadView> {
    let newest = newest_fifty(records);
    if newest_ts(newest) > 0 {
        Some(
            ThreadView {
                thread,
                name,
                last_preview: newest_preview(newest),
                last_ts: newest_ts(newest),
                unread: false,
            },
        )
    } else {
        None
    }
}

/// A sequence with one more element, if there is one.
pub open spec fn with<T>(s: Seq<T>, x: Option<T>) -> Seq<T> {
    match x {
        Some(y) => s.push(y),
        None => s,
    }
}

/// The name of a stored contact in the chat list.
pub open spec fn listed_name(c: Contact, own_aci: Option<Uuid>) -> Seq<char> {
    if own_aci == Some(c.uuid) {
        "Note to Self"@
    } else {
        display_name_of(c)
    }
}

/// The lines of the stored contacts.
pub open spec fn contact_lines(s: Seq<StoredContact>, own_aci: Option<Uuid>) -> Seq<ThreadView>
    decreases s.len(),
{
    if s.len() == 0 {
        Seq::empty()
    } else {
        with(
            contact_lines(s.drop_last(), own_aci),
            thread_line(
                contact_thread(s.last().contact.uuid),
                listed_name(s.last().contact, own_aci),
                s.last().records@,
            ),
        )
    }
}

/// Whether an account is among the stored contacts.
pub open spec fn is_stored(s: Seq<StoredContact>, uuid: Uuid) -> bool {
    exists|i: int| 0 <= i < s.len() && (#[trigger] s[i]).contact.uuid == uuid
}

/// Whether an account is among the known ones.
pub open spec fn is_known(s: Seq<KnownContact>, uuid: Uuid) -> bool {
    exists|i: int| 0 <= i < s.len() && (#[trigger] s[i]).uuid == uuid
}

/// The lines of the known accounts that are not listed yet.
pub open spec fn known_lines(s: Seq<KnownContact>, stored: Seq<StoredContact>) -> Seq<ThreadView>
    decreases s.len(),
{
    if s.len() == 0 {
        Seq::empty()
    } else {
        let before = known_lines(s.drop_last(), stored);
        let k = s.last();
        if is_stored(stored, k.uuid) || is_known(s.drop_last(), k.uuid) {
            before
        } else {
            with(
                before,
                thread_line(contact_thread(k.uuid), name_of(k.contact, k.uuid), k.records@),
            )
        }
    }
}

/// The lines of the groups.
pub open spec fn group_lines(s: Seq<StoredGroup>) -> Seq<ThreadView>
    decreases s.len(),
{
    if s.len() == 0 {
        Seq::empty()
    } else {
        with(
            group_lines(s.drop_last()),
            thread_line(Thread::Group(s.last().key), s.last().title@, s.last().records@),
        )
    }
}

fn push_thread(
    out: &mut Vec<ThreadEntry>,
    thread: Thread,
    name: String,
    records: &Vec<Option<Content>>,
)
    ensures
        entry_views(final(out)@) == with(
            entry_views(old(out)@),
            thread_line(thread, name@, records@),
        ),
{
    let (last_preview, last_ts) = last_message(records);
    if last_ts > 0 {
        let e = ThreadEntry { thread, name, last_preview, last_ts, unread: false };
        out.push(e);
        proof {
            assert(entry_views(out@) == entry_views(old(out)@).push(e@));
        }
    }
}

fn has_stored(stored: &Vec<StoredContact>, uuid: Uuid) -> (r: bool)
    ensures
        r == is_stored(stored@, uuid),
{
    let n = stored.len();
    let mut i: usize = 0;
    while i < n
        invariant
            i <= n == stored@.len(),
            forall|j: int| 0 <= j < i ==> (#[trigger] stored@[j]).contact.uuid != uuid,
        decreases n - i,
    {
        if stored[i].contact.uuid == uuid {
            return true;
        }
        i += 1;
    }
    false
}

fn has_known(known: &Vec<KnownContact>, end: usize, uuid: Uuid) -> (r: bool)
    requires
        end <= known@.len(),
    ensures
        r == is_known(known@.take(end as int), uuid),
{
    let mut i: usize = 0;
    while i < end
        invariant
            i <= end <= known@.len(),
            forall|j: int| 0 <= j < i ==> (#[trigger] known@[j]).uuid != uuid,
        decreases end - i,
    {
        if known[i].uuid == uuid {
            proof {
                assert(known@.take(end as int)[i as int].uuid == uuid);
            }
            return true;
        }
        i += 1;
    }
    false
}

/// The chat list: the stored contacts, the known accounts that are not among
/// them, and the groups, those with messages, latest first.
pub fn list_threads(
    contacts: &Vec<StoredContact>,
    known: &Vec<KnownContact>,
    groups: &Vec<StoredGroup>,
    own_aci: Option<Uuid>,
) -> (r: Vec<ThreadEntry>)
    ensures
        is_stable_sort(
            contact_lines(contacts@, own_aci) + known_lines(known@, contacts@) + group_lines(
                groups@,
            ),
            entry_views(r@),
            more_recent(),
        ),
{
    let mut entries: Vec<ThreadEntry> = Vec::new();
    let n = contacts.len();
    let mut i: usize = 0;
    proof {
        assert(entry_views(entries@) == Seq::<ThreadView>::empty());
    }
    while i < n
        invariant
            i <= n == contacts@.len(),
            entry_views(entries@) == contact_lines(contacts@.take(i as int), own_aci),
        decreases n - i,
    {
        proof {
            assert(contacts@.take(i + 1).drop_last() == contacts@.take(i as int));
        }
        let c = &contacts[i];
        let name = if own_aci == Some(c.contact.uuid) {
            "Note to Self".to_owned()
        } else {
            contact_display_name(&c.contact)
        };
        push_thread(&mut entries, Thread::Contact(ServiceId::Aci(c.contact.uuid)), name, &c.records);
        i += 1;
    }
    let ghost first = contact_lines(contacts@, own_aci);
    proof {
        assert(contacts@.take(n as int) == contacts@);
        assert(first + known_lines(known@.take(0), contacts@) == first);
    }
    let n = known.len();
    let mut i: usize = 0;
    while i < n
        invariant
            i <= n == known@.len(),
            entry_views(entries@) == first + known_lines(known@.take(i as int), contacts@),
        decreases n - i,
    {
        let ghost before = known_lines(known@.take(i as int), contacts@);
        proof {
            assert(known@.take(i + 1).drop_last() == known@.take(i as int));
        }
        let k = &known[i];
        if !has_stored(contacts, k.uuid) && !has_known(known, i, k.uuid) {
            let name = lookup_contact_name(&k.contact, k.uuid);
            push_thread(&mut entries, Thread::Contact(ServiceId::Aci(k.uuid)), name, &k.records);
            proof {
                let line = thread_line(contact_thread(k.uuid), name_of(k.contact, k.uuid), k.records@);
                assert(with(first + before, line) == first + with(before, line));
            }
        }
        i += 1;
    }
    let ghost second = first + known_lines(known@, contacts@);
    proof {
        assert(known@.take(n as int) == known@);
        assert(second + group_lines(groups@.take(0)) == second);
    }
    let n = groups.len();
    let mut i: usize = 0;
    while i < n
        invariant
            i <= n == groups@.len(),
            entry_views(entries@) == second + group_lines(groups@.take(i as int)),
        decreases n - i,
    {
        let ghost before = group_lines(groups@.take(i as int));
        proof {
            assert(groups@.take(i + 1).drop_last() == groups@.take(i as int));
        }
        let g = &groups[i];
        push_thread(&mut entries, Thread::Group(g.key), g.title.clone(), &g.records);
        proof {
            let line = thread_line(Thread::Group(g.key), g.title@, g.records@);
            assert(with(second + before, line) == second + with(before, line));
        }
        i += 1;
    }
    proof {
        assert(groups@.take(n as int) == groups@);
    }
    sort_by_recency(&entries)
}

/// The chat list is sorted, latest first, and holds only threads with messages.
pub proof fn law_chat_list_is_recent_first(
    contacts: Seq<StoredContact>,
    known: Seq<KnownContact>,
    groups: Seq<StoredGroup>,
    own_aci: Option<Uuid>,
    list: Seq<ThreadView>,
)
    requires
        is_stable_sort(
            contact_lines(contacts, own_aci) + known_lines(known, contacts) + group_lines(groups),
            list,
            more_recent(),
        ),
    ensures
        forall|i: int, j: int|
            0 <= i < j < list.len() ==> (#[trigger] list[i]).last_ts >= (#[trigger] list[j]).last_ts,
        forall|i: int| 0 <= i < list.len() ==> (#[trigger] list[i]).last_ts > 0,
{
    let all = contact_lines(contacts, own_aci) + known_lines(known, contacts) + group_lines(groups);
    lemma_stable_sort_keeps(all, list, more_recent());
    lemma_contact_lines(contacts, own_aci);
    lemma_known_lines(known, contacts);
    lemma_group_lines(groups);
    assert forall|i: int, j: int| 0 <= i < j < list.len() implies (#[trigger] list[i]).last_ts >= (
    #[trigger] list[j]).last_ts by {
        assert(more_recent()(list[i], list[j]));
    }
    assert forall|i: int| 0 <= i < list.len() implies (#[trigger] list[i]).last_ts > 0 by {
        assert(list.contains(list[i]));
        assert(all.contains(list[i]));
    }
}

proof fn lemma_contact_lines(s: Seq<StoredContact>, own_aci: Option<Uuid>)
    ensures
        forall|i: int|
            0 <= i < contact_lines(s, own_aci).len() ==> (#[trigger] contact_lines(
                s,
                own_aci,
            )[i]).last_ts > 0,
    decreases s.len(),
{
    if s.len() > 0 {
        lemma_contact_lines(s.drop_last(), own_aci);
    }
}

proof fn lemma_known_lines(s: Seq<KnownContact>, stored: Seq<StoredContact>)
    ensures
        forall|i: int|
            0 <= i < known_lines(s, stored).len() ==> (#[trigger] known_lines(s, stored)[i]).last_ts
                > 0,
    decreases s.len(),
{
    if s.len() > 0 {
        lemma_known_lines(s.drop_last(), stored);
    }
}

proof fn lemma_group_lines(s: Seq<StoredGroup>)
    ensures
        forall|i: int|
            0 <= i < group_lines(s).len() ==> (#[trigger] group_lines(s)[i]).last_ts > 0,
    decreases s.len(),
{
    if s.len() > 0 {
        lemma_group_lines(s.drop_last());
    }
}

// ── The contact browser ──────────────────────────────────────────────────────

/// A group and its title.
pub struct GroupTitle {
    pub key: GroupKey,
    pub title: String,
}

/// The line of the contact browser for a thread.
pub open spec fn bare_line(thread: Thread, name: Seq<char>) -> ThreadView {
    ThreadView { thread, name, last_preview: None, last_ts: 0, unread: false }
}

/// The lines of the contacts other than the account's owner.
pub open spec fn person_lines(s: Seq<Contact>, own_aci: Option<Uuid>) -> Seq<ThreadView>
    decreases s.len(),
{
    if s.len() == 0 {
        Seq::empty()
    } else if own_aci == Some(s.last().uuid) {
        person_lines(s.drop_last(), own_aci)
    } else {
        person_lines(s.drop_last(), own_aci).push(
            bare_line(contact_thread(s.last().uuid), display_name_of(s.last())),
        )
    }
}

/// The lines of the groups.
pub open spec fn title_lines(s: Seq<GroupTitle>) -> Seq<ThreadView> {
    s.map_values(|g: GroupTitle| bare_line(Thread::Group(g.key), g.title@))
}

/// Every contact but the account's owner and every group, whether they have
/// messages or not: the contacts by name, then the groups by name. Gives the
/// number of contacts too.
pub fn list_all_contacts(
    contacts: &Vec<Contact>,
    groups: &Vec<GroupTitle>,
    own_aci: Option<Uuid>,
) -> (r: (Vec<ThreadEntry>, usize))
    ensures
        r.1 == person_lines(contacts@, own_aci).len(),
        r.0@.len() == r.1 + groups@.len(),
        is_stable_sort(
            person_lines(contacts@, own_aci),
            entry_views(r.0@).take(r.1 as int),
            by_name(),
        ),
        is_stable_sort(title_lines(groups@), entry_views(r.0@).skip(r.1 as int), by_name()),
{
    let mut people: Vec<ThreadEntry> = Vec::new();
    let n = contacts.len();
    let mut i: usize = 0;
    proof {
        assert(entry_views(people@) == Seq::<ThreadView>::empty());
    }
    while i < n
        invariant
            i <= n == contacts@.len(),
            entry_views(people@) == person_lines(contacts@.take(i as int), own_aci),
        decreases n - i,
    {
        proof {
            assert(contacts@.take(i + 1).drop_last() == contacts@.take(i as int));
        }
        let c = &contacts[i];
        if own_aci != Some(c.uuid) {
            let e = ThreadEntry {
                thread: Thread::Contact(ServiceId::Aci(c.uuid)),
                name: contact_display_name(c),
                last_preview: None,
                last_ts: 0,
                unread: false,
            };
            let ghost before = people@;
            people.push(e);
            proof {
                assert(entry_views(people@) == entry_views(before).push(e@));
            }
        }
        i += 1;
    }
    proof {
        assert(contacts@.take(n as int) == contacts@);
    }
    let mut rooms: Vec<ThreadEntry> = Vec::new();
    let m = groups.len();
    let mut i: usize = 0;
    while i < m
        invariant
            i <= m == groups@.len(),
            rooms@.len() == i,
            forall|j: int|
                0 <= j < i ==> (#[trigger] rooms@[j])@ == bare_line(
                    Thread::Group(groups@[j].key),
                    groups@[j].title@,
                ),
        decreases m - i,
    {
        rooms.push(
            ThreadEntry {
                thread: Thread::Group(groups[i].key),
                name: groups[i].title.clone(),
                last_preview: None,
                last_ts: 0,
                unread: false,
            },
        );
        i += 1;
    }
    proof {
        assert(entry_views(rooms@) == title_lines(groups@));
    }
    let mut all = sort_by_name(&people);
    let mut rooms = sort_by_name(&rooms);
    let contacts_len = all.len();
    let ghost first = all@;
    let ghost second = rooms@;
    all.append(&mut rooms);
    proof {
        assert(entry_views(all@).take(contacts_len as int) == entry_views(first));
        assert(entry_views(all@).skip(contacts_len as int) == entry_views(second));
        assert(entry_views(people@).len() == people@.len());
    }
    (all, contacts_len)
}

// ── Names of the people in a thread ──────────────────────────────────────────

/// The names that accounts are shown by; each account is there once.
pub struct SenderNames {
    pub entries: Vec<(Uuid, String)>,
}

/// The contents of a list of names.
pub open spec fn name_views(s: Seq<(Uuid, String)>) -> Seq<(Uuid, Seq<char>)> {
    s.map_values(|e: (Uuid, String)| (e.0, e.1@))
}

impl View for SenderNames {
    type V = Seq<(Uuid, Seq<char>)>;

    open spec fn view(&self) -> Seq<(Uuid, Seq<char>)> {
        name_views(self.entries@)
    }
}

/// The name of an account, if there is one.
pub open spec fn name_in(s: Seq<(Uuid, Seq<char>)>, uuid: Uuid) -> Option<Seq<char>>
    decreases s.len(),
{
    if s.len() == 0 {
        None
    } else if s[0].0 == uuid {
        Some(s[0].1)
    } else {
        name_in(s.drop_first(), uuid)
    }
}

/// The list with a name for an account, in place of an earlier one or at the
/// end.
pub open spec fn named(s: Seq<(Uuid, Seq<char>)>, uuid: Uuid, name: Seq<char>) -> Seq<
    (Uuid, Seq<char>),
>
    decreases s.len(),
{
    if s.len() == 0 {
        seq![(uuid, name)]
    } else if s[0].0 == uuid {
        s.update(0, (uuid, name))
    } else {
        seq![s[0]] + named(s.drop_first(), uuid, name)
    }
}

proof fn lemma_name_in(s: Seq<(Uuid, Seq<char>)>, uuid: Uuid, i: int)
    requires
        0 <= i <= s.len(),
        forall|j: int| 0 <= j < i ==> (#[trigger] s[j]).0 != uuid,
        i < s.len() ==> s[i].0 == uuid,
    ensures
        name_in(s, uuid) == (if i < s.len() {
            Some(s[i].1)
        } else {
            None
        }),
        forall|name: Seq<char>| #[trigger]
            named(s, uuid, name) == (if i < s.len() {
                s.update(i, (uuid, name))
            } else {
                s.push((uuid, name))
            }),
    decreases s.len(),
{
    if s.len() == 0 {
        assert forall|name: Seq<char>| #[trigger] named(s, uuid, name) == s.push((uuid, name)) by {
            assert(s.push((uuid, name)) == seq![(uuid, name)]);
        }
    } else if i > 0 {
        assert forall|j: int| 0 <= j < i - 1 implies (#[trigger] s.drop_first()[j]).0 != uuid by {
            assert(s.drop_first()[j] == s[j + 1]);
        }
        lemma_name_in(s.drop_first(), uuid, i - 1);
        assert forall|name: Seq<char>| #[trigger]
            named(s, uuid, name) == (if i < s.len() {
                s.update(i, (uuid, name))
            } else {
                s.push((uuid, name))
            }) by {
            let rest = named(s.drop_first(), uuid, name);
            assert(named(s, uuid, name) == seq![s[0]] + rest);
            if i < s.len() {
                assert(seq![s[0]] + s.drop_first().update(i - 1, (uuid, name)) == s.update(
                    i,
                    (uuid, name),
                ));
            } else {
                assert(seq![s[0]] + s.drop_first().push((uuid, name)) == s.push((uuid, name)));
            }
        }
    }
}

/// A name that was given is the name that is found, and the others stay.
pub proof fn law_named_is_found(s: Seq<(Uuid, Seq<char>)>, uuid: Uuid, name: Seq<char>, other: Uuid)
    ensures
        name_in(named(s, uuid, name), other) == (if other == uuid {
            Some(name)
        } else {
            name_in(s, other)
        }),
    decreases s.len(),
{
    reveal_with_fuel(name_in, 2);
    let t = named(s, uuid, name);
    if s.len() == 0 {
        assert(t.drop_first() == Seq::<(Uuid, Seq<char>)>::empty());
    } else if s[0].0 == uuid {
        assert(t.drop_first() == s.drop_first());
    } else {
        assert(t.drop_first() == named(s.drop_first(), uuid, name));
        law_named_is_found(s.drop_first(), uuid, name, other);
    }
}

impl SenderNames {
    /// No names.
    pub fn new() -> (r: SenderNames)
        ensures
            r@ == Seq::<(Uuid, Seq<char>)>::empty(),
    {
        let r = SenderNames { entries: Vec::new() };
        proof {
            assert(r@ == Seq::<(Uuid, Seq<char>)>::empty());
        }
        r
    }

    fn position(&self, uuid: Uuid) -> (i: usize)
        ensures
            i <= self.entries@.len() == self@.len(),
            forall|j: int| 0 <= j < i ==> (#[trigger] self@[j]).0 != uuid,
            i < self@.len() ==> self@[i as int].0 == uuid,
    {
        let n = self.entries.len();
        let mut i: usize = 0;
        while i < n
            invariant
                i <= n == self.entries@.len(),
                forall|j: int| 0 <= j < i ==> (#[trigger] self@[j]).0 != uuid,
            decreases n - i,
        {
            if self.entries[i].0 == uuid {
                return i;
            }
            i += 1;
        }
        n
    }

    /// The name of an account, if there is one.
    pub fn get(&self, uuid: Uuid) -> (r: Option<String>)
        ensures
            opt_text(r) == name_in(self@, uuid),
    {
        let i = self.position(uuid);
        proof {
            lemma_name_in(self@, uuid, i as int);
        }
        if i < self.entries.len() {
            Some(self.entries[i].1.clone())
        } else {
            None
        }
    }

    /// Gives an account a name.
    pub fn insert(&mut self, uuid: Uuid, name: String)
        ensures
            final(self)@ == named(old(self)@, uuid, name@),
    {
        let i = self.position(uuid);
        let ghost before = self@;
        proof {
            lemma_name_in(self@, uuid, i as int);
        }
        if i < self.entries.len() {
            self.entries.set(i, (uuid, name));
            proof {
                assert(self@ == before.update(i as int, (uuid, name@)));
            }
        } else {
            self.entries.push((uuid, name));
            proof {
                assert(self@ == before.push((uuid, name@)));
            }
        }
    }
}

/// A member of a group: its contact, if the store has one, and the name in its
/// profile, if it could be fetched and has one.
pub struct Member {
    pub uuid: Uuid,
    pub contact: Option<Contact>,
    pub profile_name: Option<String>,
}

/// Whether the profile of a member has to be fetched to learn the name.
pub fn needs_roster_fetch(uuid: Uuid, contact: &Option<Contact>, own_aci: Option<Uuid>) -> (r: bool)
    ensures
        r == (own_aci != Some(uuid) && name_of(*contact, uuid) == uuid_text(uuid)),
{
    own_aci != Some(uuid) && same(
        lookup_contact_name(contact, uuid).as_str(),
        uuid.text().as_str(),
    )
}

/// The name that a member is shown by: that of the contact, else that in the
/// profile, else the identifier.
pub open spec fn member_name(m: Member) -> Seq<char> {
    if name_of(m.contact, m.uuid) != uuid_text(m.uuid) {
        name_of(m.contact, m.uuid)
    } else if m.profile_name is Some && m.profile_name->0@.len() > 0 {
        m.profile_name->0@
    } else {
        uuid_text(m.uuid)
    }
}

/// The names of the members other than the account's owner.
pub open spec fn member_names(s: Seq<Member>, own_aci: Option<Uuid>) -> Seq<(Uuid, Seq<char>)>
    decreases s.len(),
{
    if s.len() == 0 {
        Seq::empty()
    } else if own_aci == Some(s.last().uuid) {
        member_names(s.drop_last(), own_aci)
    } else {
        named(member_names(s.drop_last(), own_aci), s.last().uuid, member_name(s.last()))
    }
}

/// The people in a thread.
pub enum Roster {
    /// The other side of a conversation and its contact, if the store has one.
    Contact { uuid: Uuid, contact: Option<Contact> },
    /// The members of a group; `None` if the store does not hold the group.
    Group { members: Option<Vec<Member>> },
}

/// The names of the people in a thread other than the account's owner.
pub open spec fn names_of(roster: Roster, own_aci: Option<Uuid>) -> Seq<(Uuid, Seq<char>)> {
    match roster {
        Roster::Contact { uuid, contact } => if own_aci == Some(uuid) {
            Seq::empty()
        } else {
            seq![(uuid, name_of(contact, uuid))]
        },
        Roster::Group { members: Some(members) } => member_names(members@, own_aci),
        Roster::Group { members: None } => Seq::empty(),
    }
}

/// The names of the people in a thread other than the account's owner.
pub fn load_sender_names(roster: &Roster, own_aci: Option<Uuid>) -> (r: SenderNames)
    ensures
        r@ == names_of(*roster, own_aci),
{
    let mut map = SenderNames::new();
    match roster {
        Roster::Contact { uuid, contact } => {
            if own_aci != Some(*uuid) {
                map.insert(*uuid, lookup_contact_name(contact, *uuid));
            }
        },
        Roster::Group { members: None } => {},
        Roster::Group { members: Some(members) } => {
            let n = members.len();
            let mut i: usize = 0;
            while i < n
                invariant
                    i <= n == members@.len(),
                    map@ == member_names(members@.take(i as int), own_aci),
                decreases n - i,
            {
                proof {
                    assert(members@.take(i + 1).drop_last() == members@.take(i as int));
                }
                let m = &members[i];
                if own_aci != Some(m.uuid) {
                    let id = m.uuid.text();
                    let name = lookup_contact_name(&m.contact, m.uuid);
                    if !same(name.as_str(), id.as_str()) {
                        map.insert(m.uuid, name);
                    } else {
                        let mut resolved = id;
                        if let Some(p) = &m.profile_name {
                            if !p.as_str().is_empty() {
                                resolved = p.clone();
                            }
                        }
                        map.insert(m.uuid, resolved);
                    }
                }
                i += 1;
            }
            proof {
                assert(members@.take(n as int) == members@);
            }
        },
    }
    map
}

/// The accounts whose profile has to be fetched for want of a name.
pub open spec fn nameless_of(s: Seq<Contact>) -> Seq<Uuid>
    decreases s.len(),
{
    if s.len() == 0 {
        Seq::empty()
    } else if s.last().name@.len() == 0 && s.last().phone_number is None {
        nameless_of(s.drop_last()).push(s.last().uuid)
    } else {
        nameless_of(s.drop_last())
    }
}

/// The accounts whose profile has to be fetched for want of a name.
pub fn nameless_contacts(contacts: &Vec<Contact>) -> (r: Vec<Uuid>)
    ensures
        r@ == nameless_of(contacts@),
{
    let n = contacts.len();
    let mut out: Vec<Uuid> = Vec::new();
    let mut i: usize = 0;
    while i < n
        invariant
            i <= n == contacts@.len(),
            out@ == nameless_of(contacts@.take(i as int)),
        decreases n - i,
    {
        proof {
            assert(contacts@.take(i + 1).drop_last() == contacts@.take(i as int));
        }
        if needs_profile_fetch(&contacts[i]) {
            out.push(contacts[i].uuid);
        }
        i += 1;
    }
    proof {
        assert(contacts@.take(n as int) == contacts@);
    }
    out
}

/// The names among fetched profiles.
pub open spec fn profile_names(s: Seq<(Uuid, Option<String>)>) -> Seq<(Uuid, Seq<char>)>
    decreases s.len(),
{
    if s.len() == 0 {
        Seq::empty()
    } else if s.last().1 is Some && s.last().1->0@.len() > 0 {
        named(profile_names(s.drop_last()), s.last().0, s.last().1->0@)
    } else {
        profile_names(s.drop_last())
    }
}

/// The names found by fetching profiles: each account with the name in its
/// profile, `None` where the fetch failed or the profile has no name.
pub fn fetch_missing_profiles(fetched: &Vec<(Uuid, Option<String>)>) -> (r: SenderNames)
    ensures
        r@ == profile_names(fetched@),
{
    let n = fetched.len();
    let mut map = SenderNames::new();
    let mut i: usize = 0;
    while i < n
        invariant
            i <= n == fetched@.len(),
            map@ == profile_names(fetched@.take(i as int)),
        decreases n - i,
    {
        proof {
            assert(fetched@.take(i + 1).drop_last() == fetched@.take(i as int));
        }
        if let Some(name) = &fetched[i].1 {
            if !name.as_str().is_empty() {
                map.insert(fetched[i].0, name.clone());
            }
        }
        i += 1;
    }
    proof {
        assert(fetched@.take(n as int) == fetched@);
    }
    map
}

// ── Laws ─────────────────────────────────────────────────────────────────────

/// Whether no thread has two lines.
pub open spec fn threads_differ(s: Seq<ThreadView>) -> bool {
    forall|i: int, j: int|
        0 <= i < j < s.len() ==> (#[trigger] s[i]).thread != (#[trigger] s[j]).thread
}

proof fn lemma_contact_threads(s: Seq<StoredContact>, own_aci: Option<Uuid>)
    requires
        forall|i: int, j: int|
            0 <= i < j < s.len() ==> (#[trigger] s[i]).contact.uuid != (
            #[trigger] s[j]).contact.uuid,
    ensures
        threads_differ(contact_lines(s, own_aci)),
        forall|i: int|
            0 <= i < contact_lines(s, own_aci).len() ==> {
                let t = (#[trigger] contact_lines(s, own_aci)[i]).thread;
                t matches Thread::Contact(ServiceId::Aci(u)) && is_stored(s, u)
            },
    decreases s.len(),
{
    if s.len() > 0 {
        let rest = s.drop_last();
        let before = contact_lines(rest, own_aci);
        lemma_contact_threads(rest, own_aci);
        let lines = contact_lines(s, own_aci);
        assert forall|i: int| 0 <= i < lines.len() implies {
            let t = (#[trigger] lines[i]).thread;
            t matches Thread::Contact(ServiceId::Aci(u)) && is_stored(s, u)
        } by {
            if i < before.len() {
                assert(lines[i] == before[i]);
                let u = before[i].thread->Contact_0.uuid();
                let k = choose|k: int| 0 <= k < rest.len() && (#[trigger] rest[k]).contact.uuid == u;
                assert(s[k].contact.uuid == u);
            } else {
                assert(s[s.len() - 1].contact.uuid == s.last().contact.uuid);
            }
        }
        assert forall|i: int, j: int| 0 <= i < j < lines.len() implies (#[trigger] lines[i]).thread
            != (#[trigger] lines[j]).thread by {
            assert(lines[i] == before[i]);
            if j < before.len() {
                assert(lines[j] == before[j]);
            } else {
                let u = before[i].thread->Contact_0.uuid();
                let k = choose|k: int| 0 <= k < rest.len() && (#[trigger] rest[k]).contact.uuid == u;
                assert(s[k].contact.uuid != s[s.len() - 1].contact.uuid);
            }
        }
    }
}

proof fn lemma_known_threads(s: Seq<KnownContact>, stored: Seq<StoredContact>)
    ensures
        threads_differ(known_lines(s, stored)),
        forall|i: int|
            0 <= i < known_lines(s, stored).len() ==> {
                let t = (#[trigger] known_lines(s, stored)[i]).thread;
                t matches Thread::Contact(ServiceId::Aci(u)) && is_known(s, u) && !is_stored(
                    stored,
                    u,
                )
            },
    decreases s.len(),
{
    if s.len() > 0 {
        let rest = s.drop_last();
        let before = known_lines(rest, stored);
        lemma_known_threads(rest, stored);
        let lines = known_lines(s, stored);
        assert forall|i: int| 0 <= i < lines.len() implies {
            let t = (#[trigger] lines[i]).thread;
            t matches Thread::Contact(ServiceId::Aci(u)) && is_known(s, u) && !is_stored(stored, u)
        } by {
            if i < before.len() {
                assert(lines[i] == before[i]);
                let u = before[i].thread->Contact_0.uuid();
                let k = choose|k: int| 0 <= k < rest.len() && (#[trigger] rest[k]).uuid == u;
                assert(s[k].uuid == u);
            } else {
                assert(s[s.len() - 1].uuid == s.last().uuid);
            }
        }
        assert forall|i: int, j: int| 0 <= i < j < lines.len() implies (#[trigger] lines[i]).thread
            != (#[trigger] lines[j]).thread by {
            assert(lines[i] == before[i]);
            if j < before.len() {
                assert(lines[j] == before[j]);
            }
        }
    }
}

proof fn lemma_group_threads(s: Seq<StoredGroup>)
    requires
        forall|i: int, j: int|
            0 <= i < j < s.len() ==> (#[trigger] s[i]).key != (#[trigger] s[j]).key,
    ensures
        threads_differ(group_lines(s)),
        forall|i: int|
            0 <= i < group_lines(s).len() ==> {
                let t = (#[trigger] group_lines(s)[i]).thread;
                t matches Thread::Group(key) && exists|k: int|
                    0 <= k < s.len() && (#[trigger] s[k]).key == key
            },
    decreases s.len(),
{
    if s.len() > 0 {
        let rest = s.drop_last();
        let before = group_lines(rest);
        lemma_group_threads(rest);
        let lines = group_lines(s);
        assert forall|i: int| 0 <= i < lines.len() implies {
            let t = (#[trigger] lines[i]).thread;
            t matches Thread::Group(key) && exists|k: int|
                0 <= k < s.len() && (#[trigger] s[k]).key == key
        } by {
            if i < before.len() {
                assert(lines[i] == before[i]);
                let key = before[i].thread->Group_0;
                let k = choose|k: int| 0 <= k < rest.len() && (#[trigger] rest[k]).key == key;
                assert(s[k].key == key);
            } else {
                assert(s[s.len() - 1].key == s.last().key);
            }
        }
        assert forall|i: int, j: int| 0 <= i < j < lines.len() implies (#[trigger] lines[i]).thread
            != (#[trigger] lines[j]).thread by {
            assert(lines[i] == before[i]);
            if j < before.len() {
                assert(lines[j] == before[j]);
            } else {
                let key = before[i].thread->Group_0;
                let k = choose|k: int| 0 <= k < rest.len() && (#[trigger] rest[k]).key == key;
                assert(s[k].key != s[s.len() - 1].key);
            }
        }
    }
}

/// If the store holds every contact and every group once, the chat list shows
/// every thread once.
pub proof fn law_each_thread_is_listed_once(
    contacts: Seq<StoredContact>,
    known: Seq<KnownContact>,
    groups: Seq<StoredGroup>,
    own_aci: Option<Uuid>,
    list: Seq<ThreadView>,
)
    requires
        forall|i: int, j: int|
            0 <= i < j < contacts.len() ==> (#[trigger] contacts[i]).contact.uuid != (
            #[trigger] contacts[j]).contact.uuid,
        forall|i: int, j: int|
            0 <= i < j < groups.len() ==> (#[trigger] groups[i]).key != (#[trigger] groups[j]).key,
        is_stable_sort(
            contact_lines(contacts, own_aci) + known_lines(known, contacts) + group_lines(groups),
            list,
            more_recent(),
        ),
    ensures
        threads_differ(list),
{
    let a = contact_lines(contacts, own_aci);
    let b = known_lines(known, contacts);
    let g = group_lines(groups);
    let all = a + b + g;
    lemma_contact_threads(contacts, own_aci);
    lemma_known_threads(known, contacts);
    lemma_group_threads(groups);
    assert forall|i: int, j: int| 0 <= i < j < all.len() implies (#[trigger] all[i]).thread != (
    #[trigger] all[j]).thread by {
        if i < a.len() {
            assert(all[i] == a[i]);
        } else if i < a.len() + b.len() {
            assert(all[i] == b[i - a.len()]);
        } else {
            assert(all[i] == g[i - a.len() - b.len()]);
        }
        if j < a.len() {
            assert(all[j] == a[j]);
        } else if j < a.len() + b.len() {
            assert(all[j] == b[j - a.len()]);
        } else {
            assert(all[j] == g[j - a.len() - b.len()]);
        }
    }
    let perm = choose|perm: Seq<usize>| orders(all, perm, more_recent()) && list == #[trigger] picked(all, perm);
    assert forall|i: int, j: int| 0 <= i < j < list.len() implies (#[trigger] list[i]).thread != (
    #[trigger] list[j]).thread by {
        assert(list[i] == all[perm[i] as int]);
        assert(list[j] == all[perm[j] as int]);
        assert(perm[i] != perm[j]);
    }
}

/// The contact browser lists the contacts by name, then the groups by name, and
/// never the account's owner.
pub proof fn law_owner_is_not_browsed(contacts: Seq<Contact>, own: Uuid, list: Seq<ThreadView>)
    requires
        is_stable_sort(person_lines(contacts, Some(own)), list, by_name()),
    ensures
        sorted_by(list, by_name()),
        forall|i: int| 0 <= i < list.len() ==> (#[trigger] list[i]).thread != contact_thread(own),
{
    lemma_stable_sort_keeps(person_lines(contacts, Some(own)), list, by_name());
    lemma_person_lines(contacts, own);
    assert forall|i: int| 0 <= i < list.len() implies (#[trigger] list[i]).thread != contact_thread(
        own,
    ) by {
        assert(list.contains(list[i]));
        assert(person_lines(contacts, Some(own)).contains(list[i]));
    }
}

proof fn lemma_person_lines(contacts: Seq<Contact>, own: Uuid)
    ensures
        forall|i: int|
            0 <= i < person_lines(contacts, Some(own)).len() ==> (#[trigger] person_lines(
                contacts,
                Some(own),
            )[i]).thread != contact_thread(own),
    decreases contacts.len(),
{
    if contacts.len() > 0 {
        lemma_person_lines(contacts.drop_last(), own);
    }
}

/// How entries are listed is determined, by time as well as by name.
pub proof fn law_order_is_determined(
    entries: Seq<ThreadView>,
    x: Seq<ThreadView>,
    y: Seq<ThreadView>,
)
    ensures
        is_stable_sort(entries, x, more_recent()) && is_stable_sort(entries, y, more_recent())
            ==> x == y,
        is_stable_sort(entries, x, by_name()) && is_stable_sort(entries, y, by_name()) ==> x == y,
{
    lemma_entry_orders();
    if is_stable_sort(entries, x, more_recent()) && is_stable_sort(entries, y, more_recent()) {
        law_stable_sort_determined(entries, x, y, more_recent());
    }
    if is_stable_sort(entries, x, by_name()) && is_stable_sort(entries, y, by_name()) {
        law_stable_sort_determined(entries, x, y, by_name());
    }
}

/// The account's owner is not among the names of the people in a thread, so is
/// never mentioned.
pub proof fn law_owner_is_not_named(roster: Roster, own: Uuid)
    ensures
        name_in(names_of(roster, Some(own)), own) is None,
{
    match roster {
        Roster::Contact { uuid, contact } => {
            reveal_with_fuel(name_in, 2);
            if uuid != own {
                let s = seq![(uuid, name_of(contact, uuid))];
                assert(s.drop_first() == Seq::<(Uuid, Seq<char>)>::empty());
            }
        },
        Roster::Group { members: Some(members) } => {
            lemma_owner_not_member(members@, own);
        },
        Roster::Group { members: None } => {},
    }
}

proof fn lemma_owner_not_member(s: Seq<Member>, own: Uuid)
    ensures
        name_in(member_names(s, Some(own)), own) is None,
    decreases s.len(),
{
    if s.len() > 0 {
        lemma_owner_not_member(s.drop_last(), own);
        if s.last().uuid != own {
            law_named_is_found(
                member_names(s.drop_last(), Some(own)),
                s.last().uuid,
                member_name(s.last()),
                own,
            );
        }
    }
}

/// A contact is shown by its name, else by its phone number, else by its identifier; an
/// account without a contact by its identifier. In the chat list the owner is
/// "Note to Self".
pub proof fn law_contacts_are_named(c: Contact, own_aci: Option<Uuid>)
    ensures
        c.name@.len() > 0 ==> display_name_of(c) == c.name@,
        c.name@.len() == 0 ==> (c.phone_number matches Some(p) ==> display_name_of(c) == p@),
        c.name@.len() == 0 && c.phone_number is None ==> display_name_of(c) == uuid_text(c.uuid),
        name_of(Some(c), c.uuid) == display_name_of(c),
        name_of(None, c.uuid) == uuid_text(c.uuid),
        own_aci == Some(c.uuid) ==> listed_name(c, own_aci) == "Note to Self"@,
        own_aci != Some(c.uuid) ==> listed_name(c, own_aci) == display_name_of(c),
{
}

/// A thread has a line in the chat list if one of its newest records has a time; the
/// line shows the newest text and that time, and is not unread.
pub proof fn law_threads_with_messages_have_lines(
    thread: Thread,
    name: Seq<char>,
    records: Seq<Option<Content>>,
)
    ensures
        newest_ts(newest_fifty(records)) == 0 ==> thread_line(thread, name, records) is None,
        newest_ts(newest_fifty(records)) > 0 ==> thread_line(thread, name, records) == Some(
            ThreadView {
                thread,
                name,
                last_preview: newest_preview(newest_fifty(records)),
                last_ts: newest_ts(newest_fifty(records)),
                unread: false,
            },
        ),
{
}

proof fn lemma_with_both<T>(a: Seq<T>, b: Seq<T>, x: Option<T>)
    ensures
        with(a + b, x) == a + with(b, x),
{
    if let Some(y) = x {
        assert((a + b).push(y) == a + b.push(y));
    }
}

/// Every stored contact and every stored group that has messages is listed, and no
/// other one: the lines of a longer store are those of its parts, one for each.
pub proof fn law_every_stored_thread_is_listed(
    a: Seq<StoredContact>,
    b: Seq<StoredContact>,
    c: StoredContact,
    own_aci: Option<Uuid>,
    g: Seq<StoredGroup>,
    h: Seq<StoredGroup>,
    x: StoredGroup,
)
    ensures
        contact_lines(a + b, own_aci) == contact_lines(a, own_aci) + contact_lines(b, own_aci),
        contact_lines(seq![c], own_aci) == (match thread_line(
            Thread::Contact(ServiceId::Aci(c.contact.uuid)),
            listed_name(c.contact, own_aci),
            c.records@,
        ) {
            Some(line) => seq![line],
            None => Seq::empty(),
        }),
        group_lines(g + h) == group_lines(g) + group_lines(h),
        group_lines(seq![x]) == (match thread_line(
            Thread::Group(x.key),
            x.title@,
            x.records@,
        ) {
            Some(line) => seq![line],
            None => Seq::empty(),
        }),
    decreases b.len() + h.len(),
{
    reveal_with_fuel(contact_lines, 2);
    reveal_with_fuel(group_lines, 2);
    assert(seq![c].drop_last() == Seq::<StoredContact>::empty());
    assert(seq![x].drop_last() == Seq::<StoredGroup>::empty());
    lemma_contact_lines_both(a, b, own_aci);
    lemma_group_lines_both(g, h);
}

proof fn lemma_contact_lines_both(
    a: Seq<StoredContact>,
    b: Seq<StoredContact>,
    own_aci: Option<Uuid>,
)
    ensures
        contact_lines(a + b, own_aci) == contact_lines(a, own_aci) + contact_lines(b, own_aci),
    decreases b.len(),
{
    if b.len() == 0 {
        assert(a + b == a);
        assert(contact_lines(a, own_aci) + Seq::<ThreadView>::empty() == contact_lines(
            a,
            own_aci,
        ));
    } else {
        lemma_contact_lines_both(a, b.drop_last(), own_aci);
        assert((a + b).drop_last() == a + b.drop_last());
        lemma_with_both(
            contact_lines(a, own_aci),
            contact_lines(b.drop_last(), own_aci),
            thread_line(
                contact_thread(b.last().contact.uuid),
                listed_name(b.last().contact, own_aci),
                b.last().records@,
            ),
        );
    }
}

proof fn lemma_group_lines_both(a: Seq<StoredGroup>, b: Seq<StoredGroup>)
    ensures
        group_lines(a + b) == group_lines(a) + group_lines(b),
    decreases b.len(),
{
    if b.len() == 0 {
        assert(a + b == a);
        assert(group_lines(a) + Seq::<ThreadView>::empty() == group_lines(a));
    } else {
        lemma_group_lines_both(a, b.drop_last());
        assert((a + b).drop_last() == a + b.drop_last());
        lemma_with_both(
            group_lines(a),
            group_lines(b.drop_last()),
            thread_line(Thread::Group(b.last().key), b.last().title@, b.last().records@),
        );
    }
}

/// An account that a message came from is listed, if it has messages, unless it is
/// stored as a contact or was listed before.
pub proof fn law_known_accounts_are_listed(
    known: Seq<KnownContact>,
    k: KnownContact,
    stored: Seq<StoredContact>,
)
    ensures
        ({
            let before = known_lines(known, stored);
            let after = known_lines(known.push(k), stored);
            let there = (exists|i: int|
                0 <= i < stored.len() && (#[trigger] stored[i]).contact.uuid == k.uuid) || (exists|
                i: int,
            |
                0 <= i < known.len() && (#[trigger] known[i]).uuid == k.uuid);
            let line = thread_line(
                Thread::Contact(ServiceId::Aci(k.uuid)),
                name_of(k.contact, k.uuid),
                k.records@,
            );
            &&& there || line is None ==> after == before
            &&& !there && line is Some ==> after == before.push(line->0)
            &&& known_lines(Seq::empty(), stored).len() == 0
        }),
{
    assert(known.push(k).drop_last() == known);
}

/// The contact browser lists every contact but the owner, and every group, with bare
/// lines: one for each, by name, in order of the names, upper and lower case alike.
pub proof fn law_browser_lists_every_contact(
    a: Seq<Contact>,
    c: Contact,
    groups: Seq<GroupTitle>,
    i: int,
    own_aci: Option<Uuid>,
)
    ensures
        person_lines(a.push(c), own_aci) == (if own_aci == Some(c.uuid) {
            person_lines(a, own_aci)
        } else {
            person_lines(a, own_aci).push(
                ThreadView {
                    thread: Thread::Contact(ServiceId::Aci(c.uuid)),
                    name: display_name_of(c),
                    last_preview: None,
                    last_ts: 0,
                    unread: false,
                },
            )
        }),
        person_lines(Seq::empty(), own_aci).len() == 0,
        title_lines(groups).len() == groups.len(),
        0 <= i < groups.len() ==> title_lines(groups)[i] == (ThreadView {
            thread: Thread::Group(groups[i].key),
            name: groups[i].title@,
            last_preview: None,
            last_ts: 0,
            unread: false,
        }),
{
    assert(a.push(c).drop_last() == a);
}

/// Entries that were put in order by name are in the order of their names, upper and
/// lower case alike; those put in order by time have the latest first. Nothing is lost.
pub proof fn law_entries_are_in_order(before: Seq<ThreadView>, after: Seq<ThreadView>)
    ensures
        is_stable_sort(before, after, by_name()) ==> after.len() == before.len() && forall|
            i: int,
            j: int,
        |
            0 <= i < j < after.len() ==> lex_le(
                lower_of((#[trigger] after[i]).name),
                lower_of((#[trigger] after[j]).name),
            ),
        is_stable_sort(before, after, more_recent()) ==> after.len() == before.len() && forall|
            i: int,
            j: int,
        |
            0 <= i < j < after.len() ==> (#[trigger] after[i]).last_ts >= (
            #[trigger] after[j]).last_ts,
        is_stable_sort(before, after, by_name()) || is_stable_sort(before, after, more_recent())
            ==> forall|e: ThreadView| #[trigger] after.contains(e) <==> before.contains(e),
{
    if is_stable_sort(before, after, by_name()) {
        lemma_stable_sort_keeps(before, after, by_name());
        assert forall|i: int, j: int| 0 <= i < j < after.len() implies lex_le(
            lower_of((#[trigger] after[i]).name),
            lower_of((#[trigger] after[j]).name),
        ) by {
            assert(by_name()(after[i], after[j]));
        }
    }
    if is_stable_sort(before, after, more_recent()) {
        lemma_stable_sort_keeps(before, after, more_recent());
        assert forall|i: int, j: int| 0 <= i < j < after.len() implies (
        #[trigger] after[i]).last_ts >= (#[trigger] after[j]).last_ts by {
            assert(more_recent()(after[i], after[j]));
        }
    }
}

/// The name of an account is the first that is listed for it.
pub proof fn law_first_name_is_found(s: Seq<(Uuid, Seq<char>)>, i: int)
    requires
        0 <= i < s.len(),
        forall|j: int| 0 <= j < i ==> (#[trigger] s[j]).0 != s[i].0,
    ensures
        name_in(s, s[i].0) == Some(s[i].1),
    decreases i,
{
    if i > 0 {
        let rest = s.drop_first();
        assert forall|j: int| 0 <= j < i - 1 implies (#[trigger] rest[j]).0 != rest[i - 1].0 by {
            assert(rest[j] == s[j + 1]);
        }
        law_first_name_is_found(rest, i - 1);
        assert(s[0].0 != s[i].0);
    }
}

/// The names in a thread: with a contact, the contact's; in a group each member's, by
/// the contact if it has a name, else by the profile, else by the identifier. A member
/// that comes again is named anew, and the others keep their names.
pub proof fn law_people_are_named(
    members: Vec<Member>,
    before: Seq<Member>,
    m: Member,
    uuid: Uuid,
    contact: Option<Contact>,
    own_aci: Option<Uuid>,
    other: Uuid,
)
    ensures
        own_aci != Some(uuid) ==> name_in(names_of(Roster::Contact { uuid, contact }, own_aci), uuid)
            == Some(name_of(contact, uuid)),
        names_of(Roster::Group { members: None }, own_aci).len() == 0,
        members@ == before.push(m) ==> name_in(
            names_of(Roster::Group { members: Some(members) }, own_aci),
            other,
        ) == (if other == m.uuid && own_aci != Some(m.uuid) {
            Some(member_name(m))
        } else {
            name_in(member_names(before, own_aci), other)
        }),
        members@.len() == 0 ==> names_of(
            Roster::Group { members: Some(members) },
            own_aci,
        ).len() == 0,
        name_of(m.contact, m.uuid) != uuid_text(m.uuid) ==> member_name(m) == name_of(
            m.contact,
            m.uuid,
        ),
        name_of(m.contact, m.uuid) == uuid_text(m.uuid) ==> (m.profile_name matches Some(p)
            ==> p@.len() > 0 ==> member_name(m) == p@),
        name_of(m.contact, m.uuid) == uuid_text(m.uuid) && (m.profile_name is None
            || m.profile_name->0@.len() == 0) ==> member_name(m) == uuid_text(m.uuid),
{
    reveal_with_fuel(name_in, 2);
    if members@ == before.push(m) {
        assert(before.push(m).drop_last() == before);
        law_named_is_found(member_names(before, own_aci), m.uuid, member_name(m), other);
    }
}

/// A profile is fetched for each contact with neither a name nor a phone number, in
/// their order; a fetched profile with a name gives it to its account.
pub proof fn law_missing_names_are_fetched(
    a: Seq<Contact>,
    c: Contact,
    f: Seq<(Uuid, Option<String>)>,
    p: (Uuid, Option<String>),
    other: Uuid,
)
    ensures
        nameless_of(a.push(c)) == (if c.name@.len() == 0 && c.phone_number is None {
            nameless_of(a).push(c.uuid)
        } else {
            nameless_of(a)
        }),
        nameless_of(Seq::empty()).len() == 0,
        name_in(profile_names(f.push(p)), other) == (if other == p.0 && p.1 is Some
            && p.1->0@.len() > 0 {
            Some(p.1->0@)
        } else {
            name_in(profile_names(f), other)
        }),
        profile_names(Seq::empty()).len() == 0,
{
    assert(a.push(c).drop_last() == a);
    assert(f.push(p).drop_last() == f);
    if p.1 is Some && p.1->0@.len() > 0 {
        law_named_is_found(profile_names(f), p.0, p.1->0@, other);
    }
}

} // verus!
