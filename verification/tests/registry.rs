use pfc_notes::execute::{exec_add_note, exec_add_writer, exec_rm_note, exec_rm_writer, instantiate};
use pfc_notes::query::{query_note, query_sub_topics, query_topics, query_writer};
use pfc_notes::state::NotesState;
use pfc_notes::types::{ContractError, InstantiateMsg, NoteEntry, NoteType, NoteWriter};

fn writer(address: &str, name: &str) -> NoteWriter {
    NoteWriter {
        address: String::from(address),
        name: String::from(name),
    }
}

#[test]
fn proper_initialization() {
    let mut state = NotesState::new();

    // run instantiation logic
    instantiate(
        &mut state,
        InstantiateMsg {
            owner: "pumpkin".into(),
            writers: vec![],
        },
    )
    .unwrap();

    // correct ownership info should have been stored
    assert_eq!(state.ownership.owner, Some(String::from("pumpkin")));
    assert_eq!(state.ownership.pending_owner, None);
    assert!(state.ownership.pending_expiry.is_none());
}

#[test]
fn writers() {
    let mut state = NotesState::new();

    // run instantiation logic
    instantiate(
        &mut state,
        InstantiateMsg {
            owner: "pumpkin".into(),
            writers: vec![writer("pie", "pie name"), writer("latte", "spiced")],
        },
    )
    .unwrap();
    let writers = query_writer(&state, None, None).unwrap();
    assert_eq!(writers.entries.len(), 2);
    assert_eq!(
        writers
            .entries
            .clone()
            .into_iter()
            .find(|p| p.address == String::from("pie"))
            .unwrap(),
        writer("pie", "pie name")
    );
    assert_eq!(
        writers
            .entries
            .into_iter()
            .find(|p| p.address == String::from("latte"))
            .unwrap(),
        writer("latte", "spiced")
    );
    let writers = query_writer(&state, Some("latte".into()), None).unwrap();
    assert_eq!(writers.entries.len(), 1);
    assert_eq!(
        writers
            .entries
            .clone()
            .into_iter()
            .find(|p| p.address == String::from("pie"))
            .unwrap(),
        writer("pie", "pie name")
    );
    assert_eq!(
        writers
            .entries
            .into_iter()
            .find(|p| p.address == String::from("latte")),
        None
    );

    exec_rm_writer(&mut state, "pie").unwrap();
    let writers = query_writer(&state, None, None).unwrap();
    assert_eq!(writers.entries.len(), 1);
    assert_eq!(
        writers
            .entries
            .clone()
            .into_iter()
            .find(|p| p.address == String::from("pie")),
        None
    );
    exec_add_writer(&mut state, "bread", "also tastes yuk").unwrap();
    let writers = query_writer(&state, None, None).unwrap();
    assert_eq!(writers.entries.len(), 2);
    assert_eq!(
        writers
            .entries
            .clone()
            .into_iter()
            .find(|p| p.address == String::from("pie")),
        None
    );
    assert_eq!(
        writers
            .entries
            .clone()
            .into_iter()
            .find(|p| p.address == String::from("bread")),
        Some(writer("bread", "also tastes yuk"))
    );
}

#[test]
fn notes() {
    let mut state = NotesState::new();

    // run instantiation logic
    instantiate(
        &mut state,
        InstantiateMsg {
            owner: "pumpkin".into(),
            writers: vec![writer("pie", "pie name"), writer("latte", "spiced")],
        },
    )
    .unwrap();

    // permissions
    let err = exec_add_note(
        &mut state,
        "nope",
        "topic",
        "sub",
        "name",
        NoteType::Ipfs,
        "ipfs://foobar",
    )
    .unwrap_err();
    match err {
        ContractError::NotFound => {}
        _ => {
            println!("{:?}", err);
            assert!(false, "wrong error")
        }
    };
    let err = exec_rm_note(&mut state, "nope", "topic", "sub", "name").unwrap_err();
    match err {
        ContractError::NotFound => {}
        _ => {
            println!("{:?}", err);
            assert!(false, "wrong error")
        }
    }
    // functionality
    exec_add_note(
        &mut state,
        "pie",
        "topic",
        "sub",
        "name",
        NoteType::Ipfs,
        "ipfs://foobar",
    )
    .unwrap();
    let note = query_note(&state, "topic", "sub", "name").unwrap();
    assert_eq!(
        note,
        NoteEntry {
            writer: String::from("pie"),
            topic: "topic".to_string(),
            sub_topic: "sub".to_string(),
            name: "name".to_string(),
            note_type: NoteType::Ipfs,
            note: "ipfs://foobar".to_string(),
        }
    );
    let err = query_note(&state, "topic", "sub", "Nope").unwrap_err();
    match err {
        ContractError::NotFound => {}
        _ => {
            println!("{:?}", err);
            assert!(false, "wrong error")
        }
    }

    let err = query_note(&state, "topic", "nope", "name").unwrap_err();
    match err {
        ContractError::NotFound => {}
        _ => {
            println!("{:?}", err);
            assert!(false, "wrong error")
        }
    }
    exec_add_note(
        &mut state,
        "pie",
        "topic",
        "sub2",
        "name",
        NoteType::String,
        "string",
    )
    .unwrap();
    exec_add_note(
        &mut state,
        "pie",
        "topic2",
        "sub",
        "name",
        NoteType::Json,
        "{\"foo\":\"bar\"}",
    )
    .unwrap();
    exec_add_note(
        &mut state,
        "pie",
        "topic2",
        "sub",
        "name2",
        NoteType::String,
        "A String walks into a bar",
    )
    .unwrap();
    let topics = query_topics(&state, None, None);
    assert_eq!(topics.entries.len(), 2);
    let topics = query_topics(&state, Some("topic".into()), None);
    assert_eq!(topics.entries.len(), 1);
    let topics = query_topics(&state, Some("topic2".into()), None);
    assert_eq!(topics.entries.len(), 0);
    let subs = query_sub_topics(&state, "topic", None, None);
    println!("{:?}", subs.entries);
    assert_eq!(subs.entries.len(), 2);
    let subs = query_sub_topics(&state, "topic2", None, None);
    assert_eq!(subs.entries.len(), 1);
    let subs = query_sub_topics(&state, "topic", Some("sub".into()), None);
    assert_eq!(subs.entries.len(), 1);
}
