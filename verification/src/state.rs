//! The registry's persisted state: four ordered tables and the ownership
//! record, with the coherence invariant tying each table's keys to the
//! records they hold.

use vstd::prelude::*;

use crate::codec::{note_key_view, subtopic_key_view};
use crate::table::OrderedTable;
use crate::types::{NoteEntry, NoteEntryV, Ownership, SubTopicKey, SubTopicKeyV};

verus! {

/// The view of every value in a key-value map.
pub open spec fn vmap<V: View>(m: Map<Seq<char>, V>) -> Map<Seq<char>, V::V> {
    Map::new(|k: Seq<char>| m.dom().contains(k), |k: Seq<char>| m[k]@)
}

/// Taking views commutes with inserting a binding.
pub proof fn lemma_vmap_insert<V: View>(m: Map<Seq<char>, V>, k: Seq<char>, v: V)
    ensures
        vmap(m.insert(k, v)) == vmap(m).insert(k, v@),
{
    assert(vmap(m.insert(k, v)) =~= vmap(m).insert(k, v@));
}

/// Taking views commutes with removing a binding.
pub proof fn lemma_vmap_remove<V: View>(m: Map<Seq<char>, V>, k: Seq<char>)
    ensures
        vmap(m.remove(k)) == vmap(m).remove(k),
{
    assert(vmap(m.remove(k)) =~= vmap(m).remove(k));
}

/// The whole registry state.
pub struct NotesState {
    /// Allowlist: address to display name.
    pub writers: OrderedTable<String>,
    /// Topic markers: topic to its own label.
    pub topics: OrderedTable<String>,
    /// Subtopic markers, keyed by the encoded `(topic, sub_topic)` key.
    pub subtopics: OrderedTable<SubTopicKey>,
    /// Notes, keyed by the encoded `(topic, sub_topic, name)` key.
    pub notes: OrderedTable<NoteEntry>,
    /// Admin identity and any pending transfer.
    pub ownership: Ownership,
}

impl NotesState {
    /// All tables sorted, and every key agreeing with the record it stores:
    /// a topic marker's value is the topic itself, and subtopic and note keys
    /// are the encodings of the components their records carry.
    pub open spec fn wf(&self) -> bool {
        &&& self.writers.wf()
        &&& self.topics.wf()
        &&& self.subtopics.wf()
        &&& self.notes.wf()
        &&& forall|i: int|
            0 <= i < self.topics.rows().len() ==> (#[trigger] self.topics.rows()[i]).1@
                == self.topics.rows()[i].0
        &&& forall|i: int|
            0 <= i < self.subtopics.rows().len() ==> (#[trigger] self.subtopics.rows()[i]).0
                == subtopic_key_view(
                self.subtopics.rows()[i].1.topic@,
                self.subtopics.rows()[i].1.sub_topic@,
            )
        &&& forall|i: int|
            0 <= i < self.notes.rows().len() ==> (#[trigger] self.notes.rows()[i]).0
                == note_key_view(
                self.notes.rows()[i].1.topic@,
                self.notes.rows()[i].1.sub_topic@,
                self.notes.rows()[i].1.name@,
            )
    }

    /// The allowlist as a map from address to display name.
    pub open spec fn writers_map(&self) -> Map<Seq<char>, Seq<char>> {
        vmap(self.writers.kv_map())
    }

    /// The set of topics that carry a marker.
    pub open spec fn topics_map(&self) -> Map<Seq<char>, Seq<char>> {
        vmap(self.topics.kv_map())
    }

    /// The subtopic markers as a map from encoded key to subtopic record.
    pub open spec fn subtopics_map(&self) -> Map<Seq<char>, SubTopicKeyV> {
        vmap(self.subtopics.kv_map())
    }

    /// The notes as a map from encoded key to note record.
    pub open spec fn notes_map(&self) -> Map<Seq<char>, NoteEntryV> {
        vmap(self.notes.kv_map())
    }

    /// An empty registry: no writers, no data, no owner.
    pub fn new() -> (s: NotesState)
        ensures
            s.wf(),
            s.writers_map() =~= Map::<Seq<char>, Seq<char>>::empty(),
            s.topics_map() =~= Map::<Seq<char>, Seq<char>>::empty(),
            s.subtopics_map() =~= Map::<Seq<char>, SubTopicKeyV>::empty(),
            s.notes_map() =~= Map::<Seq<char>, NoteEntryV>::empty(),
            s.writers.rows().len() == 0,
            s.topics.rows().len() == 0,
            s.subtopics.rows().len() == 0,
            s.notes.rows().len() == 0,
            s.ownership.owner is None,
            s.ownership.pending_owner is None,
            s.ownership.pending_expiry is None,
    {
        let s = NotesState {
            writers: OrderedTable::new(),
            topics: OrderedTable::new(),
            subtopics: OrderedTable::new(),
            notes: OrderedTable::new(),
            ownership: Ownership::none(),
        };
        proof {
            assert(s.writers_map() =~= Map::<Seq<char>, Seq<char>>::empty());
            assert(s.topics_map() =~= Map::<Seq<char>, Seq<char>>::empty());
            assert(s.subtopics_map() =~= Map::<Seq<char>, SubTopicKeyV>::empty());
            assert(s.notes_map() =~= Map::<Seq<char>, NoteEntryV>::empty());
        }
        s
    }
}

/// The derived index key a subtopic record files under: its topic.
pub fn topic_subtopic_idx(_pk: &[u8], d: &SubTopicKey) -> (r: String)
    ensures
        r@ == d.topic@,
{
    d.topic.clone()
}

/// The derived index key a note files under: `topic/sub_topic`.
pub fn note_idx(_pk: &[u8], d: &NoteEntry) -> (r: String)
    ensures
        r@ == d.topic@ + seq!['/'] + d.sub_topic@,
{
    let mut r = d.topic.clone();
    r.append("/");
    r.append(d.sub_topic.as_str());
    proof {
        reveal_strlit("/");
        assert(r@ =~= d.topic@ + seq!['/'] + d.sub_topic@);
    }
    r
}

} // verus!
