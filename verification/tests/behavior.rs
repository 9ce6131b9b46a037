use pfc_notes::execute::{
    exec_add_note, exec_add_writer, exec_rm_note, exec_rm_sub_topic, exec_rm_topic, exec_rm_writer,
    execute, instantiate,
};
use pfc_notes::query::{query_entries, query_note, query_sub_topics, query_topics, query_writer, query};
use pfc_notes::state::{note_idx, topic_subtopic_idx, NotesState};
use pfc_notes::types::{
    ContractError, ExecuteMsg, Expiration, InstantiateMsg, NoteEntry, NoteKey, NoteType,
    NoteWriter, OwnershipAction, QueryAnswer, QueryMsg, SubTopicKey,
};

fn fresh_state() -> NotesState {
    let mut state = NotesState::new();
    instantiate(
        &mut state,
        InstantiateMsg {
            owner: "pumpkin".into(),
            writers: vec![NoteWriter {
                address: "pie".into(),
                name: "pie name".into(),
            }],
        },
    )
    .unwrap();
    state
}

fn add(state: &mut NotesState, topic: &str, sub: &str, name: &str) {
    exec_add_note(state, "pie", topic, sub, name, NoteType::String, "body").unwrap();
}

#[test]
fn writers_are_ordered_by_address() {
    let mut state = fresh_state();
    exec_add_writer(&mut state, "zebra", "last").unwrap();
    exec_add_writer(&mut state, "apple", "first").unwrap();
    let writers = query_writer(&state, None, None).unwrap();
    let addresses: Vec<&str> = writers.entries.iter().map(|w| w.address.as_str()).collect();
    assert_eq!(addresses, vec!["apple", "pie", "zebra"]);
}

#[test]
fn pagination_chains_without_loss() {
    let mut state = fresh_state();
    let names = ["alpha", "bravo", "charlie", "delta", "echo"];
    // insert out of order; listing must come back sorted
    for name in ["delta", "alpha", "echo", "charlie", "bravo"] {
        add(&mut state, "t", "s", name);
    }
    let mut collected: Vec<String> = Vec::new();
    let mut cursor: Option<String> = None;
    loop {
        let page = query_entries(&state, "t", "s", cursor.clone(), Some(2));
        if page.entries.is_empty() {
            break;
        }
        cursor = Some(page.entries.last().unwrap().name.clone());
        for e in page.entries {
            collected.push(e.name);
        }
    }
    assert_eq!(collected, names.iter().map(|s| s.to_string()).collect::<Vec<_>>());
}

#[test]
fn limit_is_clamped_to_thirty() {
    let mut state = fresh_state();
    for i in 0..35u32 {
        let name = format!("n{:03}", i);
        add(&mut state, "t", "s", &name);
    }
    let huge = query_entries(&state, "t", "s", None, Some(1000));
    let clamped = query_entries(&state, "t", "s", None, Some(30));
    assert_eq!(huge.entries.len(), 30);
    assert_eq!(huge.entries, clamped.entries);
    // default page size is ten
    let default_page = query_entries(&state, "t", "s", None, None);
    assert_eq!(default_page.entries.len(), 10);
    // a zero limit yields an empty page
    let empty = query_entries(&state, "t", "s", None, Some(0));
    assert!(empty.entries.is_empty());
}

#[test]
fn removing_markers_does_not_cascade() {
    let mut state = fresh_state();
    add(&mut state, "t", "s", "keepsake");
    exec_rm_topic(&mut state, "pie", "t").unwrap();
    exec_rm_sub_topic(&mut state, "pie", "t", "s").unwrap();
    // the note is still fetchable by exact key
    let note = query_note(&state, "t", "s", "keepsake").unwrap();
    assert_eq!(note.name, "keepsake");
    // but the markers are gone from the listings
    assert!(query_topics(&state, None, None).entries.is_empty());
    assert!(query_sub_topics(&state, "t", None, None).entries.is_empty());
}

#[test]
fn removed_note_is_gone_everywhere() {
    let mut state = fresh_state();
    add(&mut state, "t", "s", "one");
    add(&mut state, "t", "s", "two");
    exec_rm_note(&mut state, "pie", "t", "s", "one").unwrap();
    assert!(matches!(
        query_note(&state, "t", "s", "one").unwrap_err(),
        ContractError::NotFound
    ));
    let listing = query_entries(&state, "t", "s", None, None);
    assert_eq!(listing.entries.len(), 1);
    assert_eq!(listing.entries[0].name, "two");
    // removing it again fails
    assert!(matches!(
        exec_rm_note(&mut state, "pie", "t", "s", "one").unwrap_err(),
        ContractError::NotFound
    ));
}

#[test]
fn separator_lookalikes_do_not_collide() {
    let mut state = fresh_state();
    // raw separators inside components must not make distinct keys collide
    add(&mut state, "a_b", "c", "n");
    add(&mut state, "a", "b_c", "n");
    add(&mut state, "a/b", "c:d", "n");
    assert_eq!(query_topics(&state, None, None).entries.len(), 3);
    assert_eq!(query_sub_topics(&state, "a", None, None).entries.len(), 1);
    assert_eq!(query_sub_topics(&state, "a_b", None, None).entries.len(), 1);
    let entries = query_entries(&state, "a", "b_c", None, None);
    assert_eq!(entries.entries.len(), 1);
    assert_eq!(entries.entries[0].topic, "a");
    assert_eq!(entries.entries[0].sub_topic, "b_c");
    assert!(query_entries(&state, "a_b", "c:d", None, None).entries.is_empty());
}

#[test]
fn writer_admin_errors() {
    let mut state = fresh_state();
    // empty addresses are malformed
    assert!(matches!(
        exec_add_writer(&mut state, "", "x").unwrap_err(),
        ContractError::InvalidAddress
    ));
    // removing an unknown writer names the address
    match exec_rm_writer(&mut state, "latte").unwrap_err() {
        ContractError::AddressDoesNotExist(a) => assert_eq!(a, "latte"),
        other => panic!("wrong error: {:?}", other),
    }
    // only the owner may administer writers through the dispatcher
    let err = execute(
        &mut state,
        1,
        1,
        "pie",
        ExecuteMsg::AddWriter {
            address: "latte".into(),
            name: "spiced".into(),
        },
    )
    .unwrap_err();
    assert!(matches!(err, ContractError::Unauthorized));
    // the owner may
    execute(
        &mut state,
        1,
        1,
        "pumpkin",
        ExecuteMsg::AddWriter {
            address: "latte".into(),
            name: "spiced".into(),
        },
    )
    .unwrap();
    assert_eq!(query_writer(&state, None, None).unwrap().entries.len(), 2);
    // an instantiate seeding an empty writer address is rejected whole
    let mut state2 = NotesState::new();
    let err = instantiate(
        &mut state2,
        InstantiateMsg {
            owner: "pumpkin".into(),
            writers: vec![NoteWriter {
                address: "".into(),
                name: "x".into(),
            }],
        },
    )
    .unwrap_err();
    assert!(matches!(err, ContractError::InvalidAddress));
    assert!(query_writer(&state2, None, None).unwrap().entries.is_empty());
}

#[test]
fn ownership_two_phase_transfer() {
    let mut state = fresh_state();
    // only the owner may propose
    assert!(matches!(
        execute(
            &mut state,
            5,
            500,
            "pie",
            ExecuteMsg::UpdateOwnership(OwnershipAction::TransferOwnership {
                new_owner: "latte".into(),
                expiry: None,
            }),
        )
        .unwrap_err(),
        ContractError::Unauthorized
    ));
    // the owner proposes with a height deadline
    execute(
        &mut state,
        5,
        500,
        "pumpkin",
        ExecuteMsg::UpdateOwnership(OwnershipAction::TransferOwnership {
            new_owner: "latte".into(),
            expiry: Some(Expiration::AtHeight(10)),
        }),
    )
    .unwrap();
    assert_eq!(state.ownership.pending_owner, Some(String::from("latte")));
    // a stranger cannot accept
    assert!(matches!(
        execute(
            &mut state,
            6,
            600,
            "pie",
            ExecuteMsg::UpdateOwnership(OwnershipAction::AcceptOwnership),
        )
        .unwrap_err(),
        ContractError::Unauthorized
    ));
    // the proposed owner cannot accept after the deadline
    assert!(matches!(
        execute(
            &mut state,
            10,
            600,
            "latte",
            ExecuteMsg::UpdateOwnership(OwnershipAction::AcceptOwnership),
        )
        .unwrap_err(),
        ContractError::Unauthorized
    ));
    // before the deadline the transfer goes through
    execute(
        &mut state,
        9,
        600,
        "latte",
        ExecuteMsg::UpdateOwnership(OwnershipAction::AcceptOwnership),
    )
    .unwrap();
    assert_eq!(state.ownership.owner, Some(String::from("latte")));
    assert_eq!(state.ownership.pending_owner, None);
    // the new owner renounces; the registry is ownerless
    execute(
        &mut state,
        9,
        700,
        "latte",
        ExecuteMsg::UpdateOwnership(OwnershipAction::RenounceOwnership),
    )
    .unwrap();
    assert_eq!(state.ownership.owner, None);
}

#[test]
fn dispatchers_route_requests() {
    let mut state = fresh_state();
    execute(
        &mut state,
        1,
        1,
        "pie",
        ExecuteMsg::AddNote {
            topic: "t".into(),
            sub_topic: "s".into(),
            name: "n".into(),
            note_type: NoteType::Json,
            note: "{}".into(),
        },
    )
    .unwrap();
    match query(
        &state,
        QueryMsg::Note {
            topic: "t".into(),
            sub_topic: "s".into(),
            name: "n".into(),
        },
    )
    .unwrap()
    {
        QueryAnswer::Note(e) => {
            assert_eq!(e.note_type, NoteType::Json);
            assert_eq!(e.writer, "pie");
        }
        other => panic!("wrong answer: {:?}", other),
    }
    match query(&state, QueryMsg::Ownership {}).unwrap() {
        QueryAnswer::Ownership(o) => assert_eq!(o.owner, Some(String::from("pumpkin"))),
        other => panic!("wrong answer: {:?}", other),
    }
    match query(
        &state,
        QueryMsg::Topics {
            start_after: None,
            limit: None,
        },
    )
    .unwrap()
    {
        QueryAnswer::Topics(t) => assert_eq!(t.entries, vec![String::from("t")]),
        other => panic!("wrong answer: {:?}", other),
    }
    // an empty writers cursor is a malformed address
    assert!(matches!(
        query(
            &state,
            QueryMsg::Writers {
                start_after: Some(String::new()),
                limit: None,
            },
        )
        .unwrap_err(),
        ContractError::InvalidAddress
    ));
    // removing a note through the dispatcher
    execute(
        &mut state,
        1,
        1,
        "pie",
        ExecuteMsg::RemoveNote {
            topic: "t".into(),
            sub_topic: "s".into(),
            name: "n".into(),
        },
    )
    .unwrap();
    assert!(query_note(&state, "t", "s", "n").is_err());
}

#[test]
fn note_type_labels_round() {
    assert_eq!(NoteType::Json.to_string(), "Json");
    assert_eq!(NoteType::String.to_string(), "String");
    assert_eq!(NoteType::Ipfs.to_string(), "IPFS");
    assert_eq!("IPFS".parse::<NoteType>(), Ok(NoteType::Ipfs));
    assert_eq!("JSON".parse::<NoteType>(), Ok(NoteType::Json));
    assert_eq!("String".parse::<NoteType>(), Ok(NoteType::String));
    assert_eq!("ipfs".parse::<NoteType>(), Err(()));
}

#[test]
fn display_keys_and_index_values() {
    let nk = NoteKey {
        topic: "t".into(),
        sub_topic: "s".into(),
        name: "n".into(),
    };
    assert_eq!(nk.to_string(), "t/s:n");
    let sk = SubTopicKey {
        topic: "t".into(),
        sub_topic: "s".into(),
    };
    assert_eq!(sk.to_string(), "t_s");
    assert_eq!(topic_subtopic_idx(&[], &sk), "t");
    let entry = NoteEntry {
        writer: "pie".into(),
        topic: "t".into(),
        sub_topic: "s".into(),
        name: "n".into(),
        note_type: NoteType::Ipfs,
        note: "x".into(),
    };
    assert_eq!(note_idx(&[], &entry), "t/s");
}

#[test]
fn scoped_listing_returns_full_entries() {
    let mut state = fresh_state();
    add(&mut state, "topic2", "sub", "name");
    add(&mut state, "topic2", "sub", "name2");
    let entries = query_entries(&state, "topic2", "sub", None, None);
    assert_eq!(entries.entries.len(), 2);
    assert_eq!(entries.entries[0].name, "name");
    assert_eq!(entries.entries[1].name, "name2");
    assert_eq!(entries.entries[0].writer, "pie");
    assert_eq!(entries.entries[0].topic, "topic2");
    assert_eq!(entries.entries[0].sub_topic, "sub");
}

#[test]
fn upsert_overwrites_existing_note() {
    let mut state = fresh_state();
    add(&mut state, "t", "s", "n");
    exec_add_note(&mut state, "pie", "t", "s", "n", NoteType::Ipfs, "ipfs://new").unwrap();
    let listing = query_entries(&state, "t", "s", None, None);
    assert_eq!(listing.entries.len(), 1);
    assert_eq!(listing.entries[0].note, "ipfs://new");
    assert_eq!(listing.entries[0].note_type, NoteType::Ipfs);
}
