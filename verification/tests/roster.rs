use sst::content::{Content, ContentBody, DataMessage, Received};
use sst::ids::{hex_string, parse_thread_id, thread_id_string, GroupKey, ServiceId, Thread, Uuid};
use sst::known::{
    load_contact_uuids, load_group_keys, merge_contacts, merge_groups, save_contact_uuids,
    save_group_keys, sync_contacts, Backlog, ContactSync, ContactSyncStep, SyncState,
};
use sst::roster::{
    contact_display_name, fetch_missing_profiles, list_all_contacts, list_threads,
    load_sender_names, lookup_contact_name, nameless_contacts, needs_profile_fetch,
    needs_roster_fetch, sort_by_name, Contact, GroupTitle, KnownContact, Member, Roster,
    SenderNames, StoredContact, StoredGroup, ThreadEntry,
};

const OWN: Uuid = Uuid { value: 1 };
const ALICE: Uuid = Uuid { value: 2 };
const BOB: Uuid = Uuid { value: 3 };
const BOB_TEXT: &str = "00000000-0000-0000-0000-000000000003";

fn contact(uuid: Uuid, name: &str, phone: Option<&str>) -> Contact {
    Contact { uuid, name: name.to_string(), phone_number: phone.map(|s| s.to_string()) }
}

fn thread_of(uuid: Uuid) -> Thread {
    Thread::Contact(ServiceId::Aci(uuid))
}

fn text(thread: Thread, timestamp: u64, body: &str) -> Option<Content> {
    Some(Content {
        sender: ALICE,
        timestamp,
        thread: Some(thread),
        body: ContentBody::DataMessage(DataMessage {
            body: Some(body.to_string()),
            timestamp: None,
            attachments: Vec::new(),
            sticker: false,
            reaction: None,
            quote: None,
            delete: None,
            group_v2: None,
        }),
    })
}

fn names(entries: &Vec<ThreadEntry>) -> Vec<&str> {
    entries.iter().map(|e| e.name.as_str()).collect()
}

fn event(thread: Option<Thread>) -> Received {
    match text(thread_of(ALICE), 1, "x") {
        Some(mut c) => {
            c.thread = thread;
            Received::Content(c)
        }
        None => panic!("no content"),
    }
}

// ── Names ────────────────────────────────────────────────────────────────────

#[test]
fn contacts_are_shown_by_name_phone_or_identifier() {
    assert_eq!(contact_display_name(&contact(BOB, "Bob", Some("+49"))), "Bob");
    assert_eq!(contact_display_name(&contact(BOB, "", Some("+49"))), "+49");
    assert_eq!(contact_display_name(&contact(BOB, "", None)), BOB_TEXT);
    assert!(needs_profile_fetch(&contact(BOB, "", None)));
    assert!(!needs_profile_fetch(&contact(BOB, "", Some("+49"))));
    assert!(!needs_profile_fetch(&contact(BOB, "Bob", None)));
    assert_eq!(lookup_contact_name(&None, BOB), BOB_TEXT);
    assert_eq!(lookup_contact_name(&Some(contact(BOB, "Bob", None)), BOB), "Bob");
}

#[test]
fn sender_names_of_a_contact() {
    let roster = Roster::Contact { uuid: ALICE, contact: Some(contact(ALICE, "Alice", None)) };
    assert_eq!(load_sender_names(&roster, Some(OWN)).get(ALICE), Some("Alice".to_string()));
    assert_eq!(load_sender_names(&roster, Some(ALICE)).get(ALICE), None);
}

#[test]
fn sender_names_of_a_group() {
    let roster = Roster::Group {
        members: Some(vec![
            Member { uuid: OWN, contact: None, profile_name: Some("Me".to_string()) },
            Member {
                uuid: ALICE,
                contact: Some(contact(ALICE, "Alice", None)),
                profile_name: Some("other".to_string()),
            },
            Member { uuid: BOB, contact: None, profile_name: Some("Bobby".to_string()) },
            Member { uuid: Uuid { value: 4 }, contact: None, profile_name: Some(String::new()) },
        ]),
    };
    let found = load_sender_names(&roster, Some(OWN));
    assert_eq!(found.get(OWN), None);
    assert_eq!(found.get(ALICE), Some("Alice".to_string()));
    assert_eq!(found.get(BOB), Some("Bobby".to_string()));
    assert_eq!(
        found.get(Uuid { value: 4 }),
        Some("00000000-0000-0000-0000-000000000004".to_string())
    );
    assert!(load_sender_names(&Roster::Group { members: None }, None).entries.is_empty());
    assert!(needs_roster_fetch(BOB, &None, Some(OWN)));
    assert!(!needs_roster_fetch(OWN, &None, Some(OWN)));
    assert!(!needs_roster_fetch(BOB, &Some(contact(BOB, "Bob", None)), Some(OWN)));
}

#[test]
fn a_name_replaces_the_one_before() {
    let mut n = SenderNames::new();
    n.insert(ALICE, "a".to_string());
    n.insert(BOB, "b".to_string());
    n.insert(ALICE, "c".to_string());
    assert_eq!(n.get(ALICE), Some("c".to_string()));
    assert_eq!(n.get(BOB), Some("b".to_string()));
    assert_eq!(n.entries.len(), 2);
}

#[test]
fn missing_profiles() {
    let contacts = vec![contact(ALICE, "", None), contact(BOB, "Bob", None)];
    assert_eq!(nameless_contacts(&contacts), vec![ALICE]);
    let found = fetch_missing_profiles(&vec![
        (ALICE, Some("Alice".to_string())),
        (BOB, Some(String::new())),
        (OWN, None),
    ]);
    assert_eq!(found.get(ALICE), Some("Alice".to_string()));
    assert_eq!(found.entries.len(), 1);
}

// ── Lists ────────────────────────────────────────────────────────────────────

#[test]
fn chat_list_is_recent_first() {
    let contacts = vec![
        StoredContact {
            contact: contact(OWN, "Me", None),
            records: vec![text(thread_of(OWN), 30, "note")],
        },
        StoredContact { contact: contact(ALICE, "Alice", None), records: Vec::new() },
    ];
    let known = vec![
        KnownContact { uuid: BOB, contact: None, records: vec![text(thread_of(BOB), 20, "hi")] },
        KnownContact { uuid: OWN, contact: None, records: vec![text(thread_of(OWN), 99, "x")] },
        KnownContact { uuid: BOB, contact: None, records: vec![text(thread_of(BOB), 98, "x")] },
    ];
    let key = GroupKey { high: 1, low: 2 };
    let groups = vec![StoredGroup {
        key,
        title: "Family".to_string(),
        records: vec![text(Thread::Group(key), 40, "see you")],
    }];
    let list = list_threads(&contacts, &known, &groups, Some(OWN));
    assert_eq!(names(&list), vec!["Family", "Note to Self", BOB_TEXT]);
    assert_eq!(list[0].last_preview, Some("see you".to_string()));
    assert_eq!(list[0].last_ts, 40);
    assert_eq!(list[0].thread, Thread::Group(key));
    assert!(!list[0].unread);
}

#[test]
fn contact_browser_is_sorted_by_name() {
    let contacts = vec![
        contact(BOB, "bob", None),
        contact(OWN, "Me", None),
        contact(ALICE, "Alice", None),
    ];
    let groups = vec![
        GroupTitle { key: GroupKey { high: 1, low: 1 }, title: "weekend".to_string() },
        GroupTitle { key: GroupKey { high: 1, low: 2 }, title: "Family".to_string() },
    ];
    let (entries, split) = list_all_contacts(&contacts, &groups, Some(OWN));
    assert_eq!(names(&entries), vec!["Alice", "bob", "Family", "weekend"]);
    assert_eq!(split, 2);
    let (all, split) = list_all_contacts(&contacts, &Vec::new(), None);
    assert_eq!(names(&all), vec!["Alice", "bob", "Me"]);
    assert_eq!(split, 3);
}

#[test]
fn names_beyond_ascii_are_sorted_in_lower_case() {
    let entry = |name: &str| ThreadEntry {
        thread: thread_of(ALICE),
        name: name.to_string(),
        last_preview: None,
        last_ts: 0,
        unread: false,
    };
    let sorted = sort_by_name(&vec![entry("Éa"), entry("éA"), entry("Eb"), entry("ÀB")]);
    assert_eq!(names(&sorted), vec!["Eb", "ÀB", "Éa", "éA"]);
}

// ── Known accounts and groups ────────────────────────────────────────────────

#[test]
fn known_contacts_are_read_back() {
    let uuids = vec![ALICE, Uuid { value: u128::MAX }];
    let bytes = save_contact_uuids(&uuids);
    assert_eq!(bytes.len(), 32);
    assert_eq!(bytes[15], 2);
    assert_eq!(load_contact_uuids(&bytes), uuids);
    let mut ragged = bytes.clone();
    ragged.extend(bytes.clone());
    ragged.push(9);
    assert_eq!(load_contact_uuids(&ragged), uuids);
    assert_eq!(merge_contacts(uuids, &vec![BOB, ALICE, BOB]), vec![ALICE, Uuid { value: u128::MAX }, BOB]);
}

#[test]
fn known_groups_are_read_back() {
    let keys = vec![GroupKey { high: 1, low: 2 }, GroupKey { high: 3, low: 4 }];
    let bytes = save_group_keys(&keys);
    assert_eq!(bytes.len(), 64);
    assert_eq!(load_group_keys(&bytes), keys);
    assert_eq!(load_group_keys(&bytes[..40].to_vec()), vec![keys[0]]);
    let more = merge_groups(keys.clone(), &vec![keys[1], GroupKey { high: 5, low: 6 }]);
    assert_eq!(more.len(), 3);
}

#[test]
fn backlog_collects_where_messages_came_from() {
    let mut b = Backlog::new();
    let key = GroupKey { high: 1, low: 2 };
    assert!(b.observe(&event(Some(thread_of(ALICE))), OWN));
    assert!(b.observe(&event(Some(thread_of(ALICE))), OWN));
    assert!(b.observe(&event(Some(thread_of(OWN))), OWN));
    assert!(b.observe(&event(Some(Thread::Group(key))), OWN));
    assert!(b.observe(&event(None), OWN));
    assert!(b.observe(&Received::Contacts, OWN));
    assert!(!b.observe(&Received::QueueEmpty, OWN));
    assert_eq!(b.contacts, vec![ALICE]);
    assert_eq!(b.groups, vec![key]);
    let state = SyncState { data_dir: "/data".to_string(), own_aci: None };
    assert_eq!(state.groups_path(), "/data/known_groups");
    assert_eq!(state.contacts_path(), "/data/known_contacts");
}

#[test]
fn contact_list_is_asked_for_and_waited_for() {
    let (d, w) = (ContactSync::Draining, ContactSync::Waiting);
    assert_eq!(sync_contacts(d, &Some(Received::Contacts)), ContactSyncStep::Done);
    assert_eq!(sync_contacts(d, &Some(Received::QueueEmpty)), ContactSyncStep::Request);
    assert_eq!(sync_contacts(d, &Some(event(None))), ContactSyncStep::Continue);
    assert_eq!(sync_contacts(d, &None), ContactSyncStep::Continue);
    assert_eq!(sync_contacts(w, &Some(Received::Contacts)), ContactSyncStep::Done);
    assert_eq!(sync_contacts(w, &Some(Received::QueueEmpty)), ContactSyncStep::Continue);
    assert_eq!(sync_contacts(w, &None), ContactSyncStep::Done);
}

// ── Identifiers ──────────────────────────────────────────────────────────────

#[test]
fn identifiers_agree_with_uuid_crate() {
    for v in [0u128, 1, u128::MAX, 0x96c9d3f9_fccf_4517_a0a8_f4bf72a63e48] {
        let ours = Uuid { value: v };
        let theirs = uuid::Uuid::from_u128(v);
        assert_eq!(ours.text(), theirs.to_string());
        assert_eq!(ours.to_bytes(), theirs.as_bytes().to_vec());
        assert_eq!(Uuid::from_slice(&theirs.as_bytes().to_vec()), Some(ours));
        assert_eq!(Uuid::parse_str(&theirs.to_string()), Some(ours));
        assert_eq!(Uuid::parse_str(&theirs.simple().to_string()), Some(ours));
        assert_eq!(Uuid::parse_str(&theirs.urn().to_string()), Some(ours));
        assert_eq!(Uuid::parse_str(&theirs.braced().to_string().to_uppercase()), Some(ours));
    }
    assert_eq!(Uuid::parse_str("no"), None);
    assert_eq!(Uuid::from_slice(&vec![1, 2]), None);
}

#[test]
fn thread_identifiers() {
    let t = parse_thread_id(BOB_TEXT);
    assert_eq!(t, Ok(thread_of(BOB)));
    let hex = "a1b2c3d4e5f6a1b2c3d4e5f6a1b2c3d4e5f6a1b2c3d4e5f6a1b2c3d4e5f6a1b2";
    match parse_thread_id(hex) {
        Ok(t) => assert_eq!(thread_id_string(&t), hex),
        Err(_) => panic!("refused"),
    }
    assert_eq!(
        parse_thread_id("bob"),
        Err("invalid recipient 'bob': expected a UUID (contact) or 64-char hex string (group)".to_string())
    );
    assert_eq!(thread_id_string(&thread_of(BOB)), BOB_TEXT);
    assert_eq!(hex_string(&[0, 171, 255]), "00abff");
}
