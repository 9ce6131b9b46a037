//! The mutating operations: writer-gated note management and owner-gated
//! allowlist administration, plus the single dispatch entry point.
//!
//! Every operation checks authorization before touching anything, so a
//! failed invocation leaves the state exactly as it was.

use vstd::prelude::*;

use crate::codec::{note_key_view, note_store_key, subtopic_key_view, subtopic_store_key};
use crate::state::{lemma_vmap_insert, lemma_vmap_remove, NotesState};
use crate::table::lemma_rows_property;
use crate::types::{
    ContractError, ExecuteMsg, InstantiateMsg, NoteEntry, NoteEntryV, NoteType, NoteWriter,
    Ownership, SubTopicKey, SubTopicKeyV,
};

verus! {

/// Fail with `NotFound` unless the address is on the writer allowlist.
pub fn assert_is_writer(state: &NotesState, addr: &str) -> (r: Result<(), ContractError>)
    requires
        state.wf(),
    ensures
        r == (if state.writers.has_key(addr@) {
            Ok::<(), ContractError>(())
        } else {
            Err::<(), ContractError>(ContractError::NotFound)
        }),
{
    match state.writers.get(addr) {
        Some(_) => Ok(()),
        None => Err(ContractError::NotFound),
    }
}

/// Fail with `InvalidAddress` when the identity string is empty.
pub fn validate_address(addr: &str) -> (r: Result<(), ContractError>)
    ensures
        r == (if addr@.len() > 0 {
            Ok::<(), ContractError>(())
        } else {
            Err::<(), ContractError>(ContractError::InvalidAddress)
        }),
{
    if addr.unicode_len() > 0 {
        Ok(())
    } else {
        Err(ContractError::InvalidAddress)
    }
}

/// The effect of a successful note write: the topic marker, the subtopic
/// marker and the note row are all (re-)written, and nothing else moves.
pub open spec fn spec_add_note_applied(
    pre: NotesState,
    post: NotesState,
    sender: Seq<char>,
    topic: Seq<char>,
    sub: Seq<char>,
    name: Seq<char>,
    note_type: NoteType,
    note: Seq<char>,
) -> bool {
    &&& post.topics_map() == pre.topics_map().insert(topic, topic)
    &&& post.subtopics_map() == pre.subtopics_map().insert(
        subtopic_key_view(topic, sub),
        SubTopicKeyV { topic, sub_topic: sub },
    )
    &&& post.notes_map() == pre.notes_map().insert(
        note_key_view(topic, sub, name),
        NoteEntryV { writer: sender, topic, sub_topic: sub, name, note_type, note },
    )
    &&& post.writers == pre.writers
    &&& post.ownership == pre.ownership
}

/// The effect of a successful note removal: exactly that note's row goes;
/// the topic and subtopic markers stay.
pub open spec fn spec_rm_note_applied(
    pre: NotesState,
    post: NotesState,
    topic: Seq<char>,
    sub: Seq<char>,
    name: Seq<char>,
) -> bool {
    &&& post.notes_map() == pre.notes_map().remove(note_key_view(topic, sub, name))
    &&& post.topics == pre.topics
    &&& post.subtopics == pre.subtopics
    &&& post.writers == pre.writers
    &&& post.ownership == pre.ownership
}

/// The effect of removing a subtopic marker: only the marker goes; notes
/// beneath it stay.
pub open spec fn spec_rm_subtopic_applied(
    pre: NotesState,
    post: NotesState,
    topic: Seq<char>,
    sub: Seq<char>,
) -> bool {
    &&& post.subtopics_map() == pre.subtopics_map().remove(subtopic_key_view(topic, sub))
    &&& post.topics == pre.topics
    &&& post.notes == pre.notes
    &&& post.writers == pre.writers
    &&& post.ownership == pre.ownership
}

/// The effect of removing a topic marker: only the marker goes; subtopics
/// and notes beneath it stay.
pub open spec fn spec_rm_topic_applied(pre: NotesState, post: NotesState, topic: Seq<char>) -> bool {
    &&& post.topics_map() == pre.topics_map().remove(topic)
    &&& post.subtopics == pre.subtopics
    &&& post.notes == pre.notes
    &&& post.writers == pre.writers
    &&& post.ownership == pre.ownership
}

/// The effect of upserting a writer: the allowlist gains (or overwrites) one
/// binding, and nothing else moves.
pub open spec fn spec_add_writer_applied(
    pre: NotesState,
    post: NotesState,
    address: Seq<char>,
    name: Seq<char>,
) -> bool {
    &&& post.writers_map() == pre.writers_map().insert(address, name)
    &&& post.topics == pre.topics
    &&& post.subtopics == pre.subtopics
    &&& post.notes == pre.notes
    &&& post.ownership == pre.ownership
}

/// The effect of removing a writer: the allowlist loses that binding, and
/// nothing else moves.
pub open spec fn spec_rm_writer_applied(pre: NotesState, post: NotesState, address: Seq<char>) -> bool {
    &&& post.writers_map() == pre.writers_map().remove(address)
    &&& post.topics == pre.topics
    &&& post.subtopics == pre.subtopics
    &&& post.notes == pre.notes
    &&& post.ownership == pre.ownership
}

/// Add a note under `(topic, sub_topic, name)` on behalf of `sender`.
///
/// The sender must be an allowlisted writer. The topic and subtopic markers
/// are re-written together with the note row as one unit; an existing note
/// under the same key is overwritten.
pub fn exec_add_note(
    state: &mut NotesState,
    sender: &str,
    topic: &str,
    sub_topic: &str,
    name: &str,
    note_type: NoteType,
    note: &str,
) -> (r: Result<(), ContractError>)
    requires
        old(state).wf(),
    ensures
        final(state).wf(),
        r == (if old(state).writers.has_key(sender@) {
            Ok::<(), ContractError>(())
        } else {
            Err::<(), ContractError>(ContractError::NotFound)
        }),
        r is Err ==> *final(state) == *old(state),
        r is Ok ==> spec_add_note_applied(
            *old(state),
            *final(state),
            sender@,
            topic@,
            sub_topic@,
            name@,
            note_type,
            note@,
        ),
{
    assert_is_writer(state, sender)?;
    let ghost pre = *state;
    let topic_key: String = topic.to_owned();
    let topic_label: String = topic.to_owned();
    state.topics.upsert(topic_key, topic_label);
    proof {
        lemma_vmap_insert(pre.topics.kv_map(), topic@, topic_label);
        let p = |row: (Seq<char>, String)| row.1@ == row.0;
        assert(p((topic@, topic_label)));
        lemma_rows_property(pre.topics.rows(), state.topics.rows(), p);
    }
    let ghost mid1 = *state;
    let sub_key: String = subtopic_store_key(topic, sub_topic);
    let sub_record = SubTopicKey { topic: topic.to_owned(), sub_topic: sub_topic.to_owned() };
    state.subtopics.upsert(sub_key, sub_record);
    proof {
        lemma_vmap_insert(mid1.subtopics.kv_map(), subtopic_key_view(topic@, sub_topic@), sub_record);
        let p = |row: (Seq<char>, SubTopicKey)|
            row.0 == subtopic_key_view(row.1.topic@, row.1.sub_topic@);
        assert(p((subtopic_key_view(topic@, sub_topic@), sub_record)));
        lemma_rows_property(mid1.subtopics.rows(), state.subtopics.rows(), p);
    }
    let ghost mid2 = *state;
    let note_key: String = note_store_key(topic, sub_topic, name);
    let entry = NoteEntry {
        writer: sender.to_owned(),
        topic: topic.to_owned(),
        sub_topic: sub_topic.to_owned(),
        name: name.to_owned(),
        note_type,
        note: note.to_owned(),
    };
    state.notes.upsert(note_key, entry);
    proof {
        lemma_vmap_insert(mid2.notes.kv_map(), note_key_view(topic@, sub_topic@, name@), entry);
        let p = |row: (Seq<char>, NoteEntry)|
            row.0 == note_key_view(row.1.topic@, row.1.sub_topic@, row.1.name@);
        assert(p((note_key_view(topic@, sub_topic@, name@), entry)));
        lemma_rows_property(mid2.notes.rows(), state.notes.rows(), p);
    }
    Ok(())
}

/// Remove the note under `(topic, sub_topic, name)` on behalf of `sender`.
///
/// The sender must be an allowlisted writer, and the note must exist.
pub fn exec_rm_note(
    state: &mut NotesState,
    sender: &str,
    topic: &str,
    sub_topic: &str,
    name: &str,
) -> (r: Result<(), ContractError>)
    requires
        old(state).wf(),
    ensures
        final(state).wf(),
        r == (if old(state).writers.has_key(sender@) && old(state).notes.has_key(
            note_key_view(topic@, sub_topic@, name@),
        ) {
            Ok::<(), ContractError>(())
        } else {
            Err::<(), ContractError>(ContractError::NotFound)
        }),
        r is Err ==> *final(state) == *old(state),
        r is Ok ==> spec_rm_note_applied(*old(state), *final(state), topic@, sub_topic@, name@),
{
    assert_is_writer(state, sender)?;
    let ghost pre = *state;
    let key: String = note_store_key(topic, sub_topic, name);
    let present = state.notes.remove(key.as_str());
    proof {
        lemma_vmap_remove(pre.notes.kv_map(), note_key_view(topic@, sub_topic@, name@));
        let p = |row: (Seq<char>, NoteEntry)|
            row.0 == note_key_view(row.1.topic@, row.1.sub_topic@, row.1.name@);
        lemma_rows_property(pre.notes.rows(), state.notes.rows(), p);
    }
    if !present {
        return Err(ContractError::NotFound);
    }
    Ok(())
}

/// Remove the subtopic marker under `(topic, sub_topic)` on behalf of
/// `sender`; removing an absent marker is a no-op, not an error.
pub fn exec_rm_sub_topic(
    state: &mut NotesState,
    sender: &str,
    topic: &str,
    sub_topic: &str,
) -> (r: Result<(), ContractError>)
    requires
        old(state).wf(),
    ensures
        final(state).wf(),
        r == (if old(state).writers.has_key(sender@) {
            Ok::<(), ContractError>(())
        } else {
            Err::<(), ContractError>(ContractError::NotFound)
        }),
        r is Err ==> *final(state) == *old(state),
        r is Ok ==> spec_rm_subtopic_applied(*old(state), *final(state), topic@, sub_topic@),
{
    assert_is_writer(state, sender)?;
    let ghost pre = *state;
    let key: String = subtopic_store_key(topic, sub_topic);
    state.subtopics.remove(key.as_str());
    proof {
        lemma_vmap_remove(pre.subtopics.kv_map(), subtopic_key_view(topic@, sub_topic@));
        let p = |row: (Seq<char>, SubTopicKey)|
            row.0 == subtopic_key_view(row.1.topic@, row.1.sub_topic@);
        lemma_rows_property(pre.subtopics.rows(), state.subtopics.rows(), p);
    }
    Ok(())
}

/// Remove the topic marker on behalf of `sender`; removing an absent marker
/// is a no-op, not an error.
pub fn exec_rm_topic(state: &mut NotesState, sender: &str, topic: &str) -> (r: Result<
    (),
    ContractError,
>)
    requires
        old(state).wf(),
    ensures
        final(state).wf(),
        r == (if old(state).writers.has_key(sender@) {
            Ok::<(), ContractError>(())
        } else {
            Err::<(), ContractError>(ContractError::NotFound)
        }),
        r is Err ==> *final(state) == *old(state),
        r is Ok ==> spec_rm_topic_applied(*old(state), *final(state), topic@),
{
    assert_is_writer(state, sender)?;
    let ghost pre = *state;
    state.topics.remove(topic);
    proof {
        lemma_vmap_remove(pre.topics.kv_map(), topic@);
        let p = |row: (Seq<char>, String)| row.1@ == row.0;
        lemma_rows_property(pre.topics.rows(), state.topics.rows(), p);
    }
    Ok(())
}

/// Upsert a writer onto the allowlist. Authorization is the dispatcher's
/// business: only the owner may reach this.
pub fn exec_add_writer(state: &mut NotesState, address: &str, name: &str) -> (r: Result<
    (),
    ContractError,
>)
    requires
        old(state).wf(),
    ensures
        final(state).wf(),
        r == (if address@.len() > 0 {
            Ok::<(), ContractError>(())
        } else {
            Err::<(), ContractError>(ContractError::InvalidAddress)
        }),
        r is Err ==> *final(state) == *old(state),
        r is Ok ==> spec_add_writer_applied(*old(state), *final(state), address@, name@),
{
    validate_address(address)?;
    let ghost pre = *state;
    let name_string: String = name.to_owned();
    state.writers.upsert(address.to_owned(), name_string);
    proof {
        lemma_vmap_insert(pre.writers.kv_map(), address@, name_string);
    }
    Ok(())
}

/// Remove a writer from the allowlist; fails when the address is not on it.
/// Authorization is the dispatcher's business: only the owner may reach this.
pub fn exec_rm_writer(state: &mut NotesState, address: &str) -> (r: Result<(), ContractError>)
    requires
        old(state).wf(),
    ensures
        final(state).wf(),
        address@.len() == 0 ==> r == Err::<(), ContractError>(ContractError::InvalidAddress),
        address@.len() > 0 && !old(state).writers.has_key(address@) ==> (match r {
            Err(ContractError::AddressDoesNotExist(a)) => a@ == address@,
            _ => false,
        }),
        r is Ok <==> address@.len() > 0 && old(state).writers.has_key(address@),
        r is Err ==> *final(state) == *old(state),
        r is Ok ==> spec_rm_writer_applied(*old(state), *final(state), address@),
{
    validate_address(address)?;
    let ghost pre = *state;
    let present = state.writers.remove(address);
    proof {
        lemma_vmap_remove(pre.writers.kv_map(), address@);
    }
    if !present {
        return Err(ContractError::AddressDoesNotExist(address.to_owned()));
    }
    Ok(())
}

/// The allowlist after seeding it with the given writers, first to last;
/// a later entry for the same address wins.
pub open spec fn seed_writers(m: Map<Seq<char>, Seq<char>>, ws: Seq<NoteWriter>) -> Map<
    Seq<char>,
    Seq<char>,
>
    decreases ws.len(),
{
    if ws.len() == 0 {
        m
    } else {
        seed_writers(m.insert(ws[0].address@, ws[0].name@), ws.skip(1))
    }
}

/// Seeding one more writer extends the seeded allowlist by one binding.
proof fn lemma_seed_writers_snoc(m: Map<Seq<char>, Seq<char>>, ws: Seq<NoteWriter>, w: NoteWriter)
    ensures
        seed_writers(m, ws.push(w)) == seed_writers(m, ws).insert(w.address@, w.name@),
    decreases ws.len(),
{
    let one = ws.push(w);
    if ws.len() == 0 {
        assert(one.skip(1) =~= Seq::<NoteWriter>::empty());
        assert(one[0] == w);
        assert(seed_writers(m, one) == seed_writers(m.insert(w.address@, w.name@), one.skip(1)));
        assert(seed_writers(m.insert(w.address@, w.name@), one.skip(1)) == m.insert(
            w.address@,
            w.name@,
        ));
        assert(seed_writers(m, ws) == m);
    } else {
        assert(one[0] == ws[0]);
        assert(one.skip(1) =~= ws.skip(1).push(w));
        let m1 = m.insert(ws[0].address@, ws[0].name@);
        assert(seed_writers(m, one) == seed_writers(m1, one.skip(1)));
        lemma_seed_writers_snoc(m1, ws.skip(1), w);
        assert(seed_writers(m, ws) == seed_writers(m1, ws.skip(1)));
    }
}

/// Initialize the registry: appoint the owner and seed the writer allowlist.
///
/// Every address is validated first, so a rejected message leaves the state
/// untouched.
pub fn instantiate(state: &mut NotesState, msg: InstantiateMsg) -> (r: Result<(), ContractError>)
    requires
        old(state).wf(),
    ensures
        final(state).wf(),
        r is Ok <==> msg.owner@.len() > 0 && (forall|i: int|
            0 <= i < msg.writers@.len() ==> (#[trigger] msg.writers@[i]).address@.len() > 0),
        r is Err ==> *final(state) == *old(state) && r == Err::<(), ContractError>(
            ContractError::InvalidAddress,
        ),
        r is Ok ==> {
            &&& final(state).ownership == (Ownership {
                owner: Some(msg.owner),
                pending_owner: None,
                pending_expiry: None,
            })
            &&& final(state).writers_map() == seed_writers(old(state).writers_map(), msg.writers@)
            &&& final(state).topics == old(state).topics
            &&& final(state).subtopics == old(state).subtopics
            &&& final(state).notes == old(state).notes
        },
{
    validate_address(msg.owner.as_str())?;
    let n = msg.writers.len();
    let mut i: usize = 0;
    while i < n
        invariant
            i <= n,
            n == msg.writers@.len(),
            *state == *old(state),
            state.wf(),
            forall|j: int| 0 <= j < i ==> (#[trigger] msg.writers@[j]).address@.len() > 0,
        decreases n - i,
    {
        validate_address(msg.writers[i].address.as_str())?;
        i = i + 1;
    }
    let ghost pre = *state;
    state.ownership = Ownership { owner: Some(msg.owner), pending_owner: None, pending_expiry: None };
    let mut i: usize = 0;
    while i < n
        invariant
            i <= n,
            n == msg.writers@.len(),
            state.wf(),
            state.writers_map() == seed_writers(pre.writers_map(), msg.writers@.take(i as int)),
            state.topics == pre.topics,
            state.subtopics == pre.subtopics,
            state.notes == pre.notes,
            state.ownership == (Ownership {
                owner: Some(msg.owner),
                pending_owner: None,
                pending_expiry: None,
            }),
        decreases n - i,
    {
        let ghost before = state.writers.kv_map();
        let w = &msg.writers[i];
        state.writers.upsert(w.address.clone(), w.name.clone());
        proof {
            lemma_vmap_insert(before, msg.writers@[i as int].address@, msg.writers@[i as int].name);
            assert(msg.writers@.take(i + 1 as int) =~= msg.writers@.take(i as int).push(
                msg.writers@[i as int],
            ));
            lemma_seed_writers_snoc(
                pre.writers_map(),
                msg.writers@.take(i as int),
                msg.writers@[i as int],
            );
        }
        i = i + 1;
    }
    proof {
        assert(msg.writers@.take(n as int) =~= msg.writers@);
    }
    Ok(())
}

/// Apply one mutating request on behalf of `sender`, at the given chain
/// height and block time (nanoseconds). Ownership actions go to the
/// ownership record; allowlist administration is owner-gated; note
/// management is writer-gated. A failed request leaves the state unchanged.
pub fn execute(
    state: &mut NotesState,
    height: u64,
    time: u64,
    sender: &str,
    msg: ExecuteMsg,
) -> (r: Result<(), ContractError>)
    requires
        old(state).wf(),
    ensures
        final(state).wf(),
        r is Err ==> *final(state) == *old(state),
        match msg {
            ExecuteMsg::UpdateOwnership(action) => match old(state).ownership.spec_update(
                height,
                time,
                sender@,
                action,
            ) {
                Ok(o2) => {
                    &&& r is Ok
                    &&& final(state).ownership == o2
                    &&& final(state).writers == old(state).writers
                    &&& final(state).topics == old(state).topics
                    &&& final(state).subtopics == old(state).subtopics
                    &&& final(state).notes == old(state).notes
                },
                Err(e) => r == Err::<(), ContractError>(e),
            },
            ExecuteMsg::AddWriter { address, name } => {
                if !old(state).ownership.spec_is_owner(sender@) {
                    r == Err::<(), ContractError>(ContractError::Unauthorized)
                } else if address@.len() == 0 {
                    r == Err::<(), ContractError>(ContractError::InvalidAddress)
                } else {
                    r is Ok && spec_add_writer_applied(*old(state), *final(state), address@, name@)
                }
            },
            ExecuteMsg::RemoveWriter { address } => {
                if !old(state).ownership.spec_is_owner(sender@) {
                    r == Err::<(), ContractError>(ContractError::Unauthorized)
                } else if address@.len() == 0 {
                    r == Err::<(), ContractError>(ContractError::InvalidAddress)
                } else if !old(state).writers.has_key(address@) {
                    match r {
                        Err(ContractError::AddressDoesNotExist(a)) => a@ == address@,
                        _ => false,
                    }
                } else {
                    r is Ok && spec_rm_writer_applied(*old(state), *final(state), address@)
                }
            },
            ExecuteMsg::AddNote { topic, sub_topic, name, note_type, note } => {
                if !old(state).writers.has_key(sender@) {
                    r == Err::<(), ContractError>(ContractError::NotFound)
                } else {
                    r is Ok && spec_add_note_applied(
                        *old(state),
                        *final(state),
                        sender@,
                        topic@,
                        sub_topic@,
                        name@,
                        note_type,
                        note@,
                    )
                }
            },
            ExecuteMsg::RemoveNote { topic, sub_topic, name } => {
                if !old(state).writers.has_key(sender@) || !old(state).notes.has_key(
                    note_key_view(topic@, sub_topic@, name@),
                ) {
                    r == Err::<(), ContractError>(ContractError::NotFound)
                } else {
                    r is Ok && spec_rm_note_applied(
                        *old(state),
                        *final(state),
                        topic@,
                        sub_topic@,
                        name@,
                    )
                }
            },
            ExecuteMsg::RemoveSubTopic { topic, sub_topic } => {
                if !old(state).writers.has_key(sender@) {
                    r == Err::<(), ContractError>(ContractError::NotFound)
                } else {
                    r is Ok && spec_rm_subtopic_applied(
                        *old(state),
                        *final(state),
                        topic@,
                        sub_topic@,
                    )
                }
            },
            ExecuteMsg::RemoveTopic { topic } => {
                if !old(state).writers.has_key(sender@) {
                    r == Err::<(), ContractError>(ContractError::NotFound)
                } else {
                    r is Ok && spec_rm_topic_applied(*old(state), *final(state), topic@)
                }
            },
        },
{
    match msg {
        ExecuteMsg::UpdateOwnership(action) => {
            state.ownership.update(height, time, sender, action)?;
            Ok(())
        },
        ExecuteMsg::AddWriter { address, name } => {
            state.ownership.assert_owner(sender)?;
            exec_add_writer(state, address.as_str(), name.as_str())
        },
        ExecuteMsg::RemoveWriter { address } => {
            state.ownership.assert_owner(sender)?;
            exec_rm_writer(state, address.as_str())
        },
        ExecuteMsg::AddNote { topic, sub_topic, name, note_type, note } => exec_add_note(
            state,
            sender,
            topic.as_str(),
            sub_topic.as_str(),
            name.as_str(),
            note_type,
            note.as_str(),
        ),
        ExecuteMsg::RemoveNote { topic, sub_topic, name } => exec_rm_note(
            state,
            sender,
            topic.as_str(),
            sub_topic.as_str(),
            name.as_str(),
        ),
        ExecuteMsg::RemoveSubTopic { topic, sub_topic } => exec_rm_sub_topic(
            state,
            sender,
            topic.as_str(),
            sub_topic.as_str(),
        ),
        ExecuteMsg::RemoveTopic { topic } => exec_rm_topic(state, sender, topic.as_str()),
    }
}

} // verus!
