//! The query engine: bounded, paginated ascending scans over the tables.
//!
//! Every listing shares one contract: results come in ascending key order,
//! an optional `start_after` cursor is an exclusive lower bound, and the page
//! size defaults to 10 and is clamped to 30. Each call re-scans the current
//! state; no cursor is held across calls.

use vstd::prelude::*;

use crate::codec::note_key_view;
use crate::order::{lex_lt, str_eq, str_lt};
use crate::state::NotesState;
use crate::types::{
    ContractError, NoteEntry, NoteEntryV, NoteResponse, NoteWriter, NoteWriterV, QueryAnswer,
    QueryMsg, SubTopicKey,
};

verus! {

/// Page size after defaulting and clamping: 10 when absent, at most 30.
pub open spec fn spec_clamp(limit: Option<u32>) -> nat {
    match limit {
        Some(v) => if v > 30 {
            30
        } else {
            v as nat
        },
        None => 10,
    }
}

/// How many results a page holds: the whole remainder, up to the limit.
pub open spec fn spec_page_len(total: nat, limit: nat) -> nat {
    if limit <= total {
        limit
    } else {
        total
    }
}

/// The view of an optional cursor string.
pub open spec fn opt_view(o: Option<String>) -> Option<Seq<char>> {
    match o {
        Some(s) => Some(s@),
        None => None,
    }
}

/// Whether a key lies strictly after the exclusive start bound, if one is set.
pub open spec fn after_start(start: Option<Seq<char>>, k: Seq<char>) -> bool {
    match start {
        Some(b) => lex_lt(b, k),
        None => true,
    }
}

/// The writer (or topic) rows that lie after the start bound, in table order.
pub open spec fn key_matching(rows: Seq<(Seq<char>, String)>, start: Option<Seq<char>>) -> Seq<
    (Seq<char>, String),
> {
    rows.filter(|row: (Seq<char>, String)| after_start(start, row.0))
}

/// The subtopic rows of the given topic that lie after the start bound on the
/// sub-topic component, in table order.
pub open spec fn subtopics_matching(
    rows: Seq<(Seq<char>, SubTopicKey)>,
    topic: Seq<char>,
    start: Option<Seq<char>>,
) -> Seq<(Seq<char>, SubTopicKey)> {
    rows.filter(
        |row: (Seq<char>, SubTopicKey)|
            row.1.topic@ == topic && after_start(start, row.1.sub_topic@),
    )
}

/// The note rows of the given scope that lie after the start bound on the
/// name component, in table order.
pub open spec fn notes_matching(
    rows: Seq<(Seq<char>, NoteEntry)>,
    topic: Seq<char>,
    sub: Seq<char>,
    start: Option<Seq<char>>,
) -> Seq<(Seq<char>, NoteEntry)> {
    rows.filter(
        |row: (Seq<char>, NoteEntry)|
            row.1.topic@ == topic && row.1.sub_topic@ == sub && after_start(start, row.1.name@),
    )
}

/// Filtering an empty sequence yields an empty sequence.
pub proof fn lemma_filter_empty<A>(pred: spec_fn(A) -> bool)
    ensures
        Seq::<A>::empty().filter(pred) == Seq::<A>::empty(),
{
    reveal(Seq::filter);
}

/// Filtering after appending one element appends it when it matches.
pub proof fn lemma_filter_push<A>(s: Seq<A>, e: A, pred: spec_fn(A) -> bool)
    ensures
        s.push(e).filter(pred) == (if pred(e) {
            s.filter(pred).push(e)
        } else {
            s.filter(pred)
        }),
{
    reveal(Seq::filter);
    assert(s.push(e).drop_last() =~= s);
    assert(s.push(e).last() == e);
}

/// Page clamping in executable form.
fn clamp_limit(limit: Option<u32>) -> (l: usize)
    ensures
        l == spec_clamp(limit),
{
    let v: u32 = match limit {
        Some(v) => if v > 30 {
            30
        } else {
            v
        },
        None => 10,
    };
    v as usize
}

/// List allowlisted writers, ordered by address, after the optional cursor.
///
/// A present but empty cursor address is rejected as malformed.
pub fn query_writer(
    state: &NotesState,
    start_after: Option<String>,
    limit: Option<u32>,
) -> (r: Result<NoteResponse<NoteWriter>, ContractError>)
    requires
        state.wf(),
    ensures
        r is Err <==> (match start_after {
            Some(s) => s@.len() == 0,
            None => false,
        }),
        r is Err ==> r == Err::<NoteResponse<NoteWriter>, ContractError>(
            ContractError::InvalidAddress,
        ),
        (match r {
            Ok(resp) => ({
                let m = key_matching(state.writers.rows(), opt_view(start_after));
                &&& resp.entries@.len() == spec_page_len(m.len(), spec_clamp(limit))
                &&& forall|j: int|
                    0 <= j < resp.entries@.len() ==> (#[trigger] resp.entries@[j])@
                        == (NoteWriterV { address: m[j].0, name: m[j].1@ })
            }),
            Err(_) => true,
        }),
{
    if let Some(s) = &start_after {
        if s.as_str().unicode_len() == 0 {
            return Err(ContractError::InvalidAddress);
        }
    }
    let lim = clamp_limit(limit);
    let mut out: Vec<NoteWriter> = Vec::new();
    let n = state.writers.len();
    let mut i: usize = 0;
    proof {
        assert(state.writers.rows().take(0) =~= Seq::<(Seq<char>, String)>::empty());
        lemma_filter_empty(|row: (Seq<char>, String)| after_start(opt_view(start_after), row.0));
    }
    while i < n
        invariant
            i <= n,
            n == state.writers.rows().len(),
            state.wf(),
            lim == spec_clamp(limit),
            out@.len() == spec_page_len(
                key_matching(state.writers.rows().take(i as int), opt_view(start_after)).len(),
                lim as nat,
            ),
            forall|j: int|
                0 <= j < out@.len() ==> (#[trigger] out@[j])@ == (NoteWriterV {
                    address: key_matching(
                        state.writers.rows().take(i as int),
                        opt_view(start_after),
                    )[j].0,
                    name: key_matching(
                        state.writers.rows().take(i as int),
                        opt_view(start_after),
                    )[j].1@,
                }),
        decreases n - i,
    {
        let ghost rows = state.writers.rows();
        let ghost m_i = key_matching(rows.take(i as int), opt_view(start_after));
        let key = state.writers.key_at(i);
        let keep: bool = match &start_after {
            Some(b) => str_lt(b.as_str(), key.as_str()),
            None => true,
        };
        proof {
            assert(rows.take(i + 1) =~= rows.take(i as int).push(rows[i as int]));
            lemma_filter_push(
                rows.take(i as int),
                rows[i as int],
                |row: (Seq<char>, String)| after_start(opt_view(start_after), row.0),
            );
            assert(key_matching(rows.take(i + 1), opt_view(start_after)) == (if after_start(
                opt_view(start_after),
                rows[i as int].0,
            ) {
                m_i.push(rows[i as int])
            } else {
                m_i
            }));
            assert(keep == after_start(opt_view(start_after), rows[i as int].0));
        }
        if keep && out.len() < lim {
            let w = NoteWriter { address: key.clone(), name: state.writers.value_at(i).clone() };
            out.push(w);
        }
        i = i + 1;
    }
    proof {
        assert(state.writers.rows().take(n as int) =~= state.writers.rows());
    }
    Ok(NoteResponse { entries: out })
}

/// List topics that carry a marker, ordered, after the optional cursor.
pub fn query_topics(
    state: &NotesState,
    start_after: Option<String>,
    limit: Option<u32>,
) -> (r: NoteResponse<String>)
    requires
        state.wf(),
    ensures
        ({
            let m = key_matching(state.topics.rows(), opt_view(start_after));
            &&& r.entries@.len() == spec_page_len(m.len(), spec_clamp(limit))
            &&& forall|j: int|
                0 <= j < r.entries@.len() ==> (#[trigger] r.entries@[j])@ == m[j].1@
        }),
{
    let lim = clamp_limit(limit);
    let mut out: Vec<String> = Vec::new();
    let n = state.topics.len();
    let mut i: usize = 0;
    proof {
        assert(state.topics.rows().take(0) =~= Seq::<(Seq<char>, String)>::empty());
        lemma_filter_empty(|row: (Seq<char>, String)| after_start(opt_view(start_after), row.0));
    }
    while i < n
        invariant
            i <= n,
            n == state.topics.rows().len(),
            state.wf(),
            lim == spec_clamp(limit),
            out@.len() == spec_page_len(
                key_matching(state.topics.rows().take(i as int), opt_view(start_after)).len(),
                lim as nat,
            ),
            forall|j: int|
                0 <= j < out@.len() ==> (#[trigger] out@[j])@ == key_matching(
                    state.topics.rows().take(i as int),
                    opt_view(start_after),
                )[j].1@,
        decreases n - i,
    {
        let ghost rows = state.topics.rows();
        let ghost m_i = key_matching(rows.take(i as int), opt_view(start_after));
        let key = state.topics.key_at(i);
        let keep: bool = match &start_after {
            Some(b) => str_lt(b.as_str(), key.as_str()),
            None => true,
        };
        proof {
            assert(rows.take(i + 1) =~= rows.take(i as int).push(rows[i as int]));
            lemma_filter_push(
                rows.take(i as int),
                rows[i as int],
                |row: (Seq<char>, String)| after_start(opt_view(start_after), row.0),
            );
            assert(key_matching(rows.take(i + 1), opt_view(start_after)) == (if after_start(
                opt_view(start_after),
                rows[i as int].0,
            ) {
                m_i.push(rows[i as int])
            } else {
                m_i
            }));
            assert(keep == after_start(opt_view(start_after), rows[i as int].0));
        }
        if keep && out.len() < lim {
            out.push(state.topics.value_at(i).clone());
        }
        i = i + 1;
    }
    proof {
        assert(state.topics.rows().take(n as int) =~= state.topics.rows());
    }
    NoteResponse { entries: out }
}

/// List the subtopics of a topic, ordered by sub-topic, after the optional
/// cursor on the sub-topic component.
pub fn query_sub_topics(
    state: &NotesState,
    topic: &str,
    start_after: Option<String>,
    limit: Option<u32>,
) -> (r: NoteResponse<SubTopicKey>)
    requires
        state.wf(),
    ensures
        ({
            let m = subtopics_matching(state.subtopics.rows(), topic@, opt_view(start_after));
            &&& r.entries@.len() == spec_page_len(m.len(), spec_clamp(limit))
            &&& forall|j: int|
                0 <= j < r.entries@.len() ==> (#[trigger] r.entries@[j])@ == m[j].1@
        }),
{
    let lim = clamp_limit(limit);
    let mut out: Vec<SubTopicKey> = Vec::new();
    let n = state.subtopics.len();
    let mut i: usize = 0;
    proof {
        assert(state.subtopics.rows().take(0) =~= Seq::<(Seq<char>, SubTopicKey)>::empty());
        lemma_filter_empty(
            |row: (Seq<char>, SubTopicKey)|
                row.1.topic@ == topic@ && after_start(opt_view(start_after), row.1.sub_topic@),
        );
    }
    while i < n
        invariant
            i <= n,
            n == state.subtopics.rows().len(),
            state.wf(),
            lim == spec_clamp(limit),
            out@.len() == spec_page_len(
                subtopics_matching(
                    state.subtopics.rows().take(i as int),
                    topic@,
                    opt_view(start_after),
                ).len(),
                lim as nat,
            ),
            forall|j: int|
                0 <= j < out@.len() ==> (#[trigger] out@[j])@ == subtopics_matching(
                    state.subtopics.rows().take(i as int),
                    topic@,
                    opt_view(start_after),
                )[j].1@,
        decreases n - i,
    {
        let ghost rows = state.subtopics.rows();
        let ghost m_i = subtopics_matching(rows.take(i as int), topic@, opt_view(start_after));
        let record = state.subtopics.value_at(i);
        let keep: bool = str_eq(record.topic.as_str(), topic) && (match &start_after {
            Some(b) => str_lt(b.as_str(), record.sub_topic.as_str()),
            None => true,
        });
        proof {
            assert(rows.take(i + 1) =~= rows.take(i as int).push(rows[i as int]));
            lemma_filter_push(
                rows.take(i as int),
                rows[i as int],
                |row: (Seq<char>, SubTopicKey)|
                    row.1.topic@ == topic@ && after_start(opt_view(start_after), row.1.sub_topic@),
            );
            assert(subtopics_matching(rows.take(i + 1), topic@, opt_view(start_after)) == (if (
            rows[i as int].1.topic@ == topic@ && after_start(
                opt_view(start_after),
                rows[i as int].1.sub_topic@,
            )) {
                m_i.push(rows[i as int])
            } else {
                m_i
            }));
            assert(keep == (rows[i as int].1.topic@ == topic@ && after_start(
                opt_view(start_after),
                rows[i as int].1.sub_topic@,
            )));
        }
        if keep && out.len() < lim {
            out.push(record.clone());
        }
        i = i + 1;
    }
    proof {
        assert(state.subtopics.rows().take(n as int) =~= state.subtopics.rows());
    }
    NoteResponse { entries: out }
}

/// List the notes under `(topic, sub_topic)`, ordered by name, after the
/// optional cursor on the name component.
pub fn query_entries(
    state: &NotesState,
    topic: &str,
    sub_topic: &str,
    start_after: Option<String>,
    limit: Option<u32>,
) -> (r: NoteResponse<NoteEntry>)
    requires
        state.wf(),
    ensures
        ({
            let m = notes_matching(
                state.notes.rows(),
                topic@,
                sub_topic@,
                opt_view(start_after),
            );
            &&& r.entries@.len() == spec_page_len(m.len(), spec_clamp(limit))
            &&& forall|j: int|
                0 <= j < r.entries@.len() ==> (#[trigger] r.entries@[j])@ == m[j].1@
        }),
{
    let lim = clamp_limit(limit);
    let mut out: Vec<NoteEntry> = Vec::new();
    let n = state.notes.len();
    let mut i: usize = 0;
    proof {
        assert(state.notes.rows().take(0) =~= Seq::<(Seq<char>, NoteEntry)>::empty());
        lemma_filter_empty(
            |row: (Seq<char>, NoteEntry)|
                row.1.topic@ == topic@ && row.1.sub_topic@ == sub_topic@ && after_start(
                    opt_view(start_after),
                    row.1.name@,
                ),
        );
    }
    while i < n
        invariant
            i <= n,
            n == state.notes.rows().len(),
            state.wf(),
            lim == spec_clamp(limit),
            out@.len() == spec_page_len(
                notes_matching(
                    state.notes.rows().take(i as int),
                    topic@,
                    sub_topic@,
                    opt_view(start_after),
                ).len(),
                lim as nat,
            ),
            forall|j: int|
                0 <= j < out@.len() ==> (#[trigger] out@[j])@ == notes_matching(
                    state.notes.rows().take(i as int),
                    topic@,
                    sub_topic@,
                    opt_view(start_after),
                )[j].1@,
        decreases n - i,
    {
        let ghost rows = state.notes.rows();
        let ghost m_i = notes_matching(
            rows.take(i as int),
            topic@,
            sub_topic@,
            opt_view(start_after),
        );
        let record = state.notes.value_at(i);
        let keep: bool = str_eq(record.topic.as_str(), topic) && str_eq(
            record.sub_topic.as_str(),
            sub_topic,
        ) && (match &start_after {
            Some(b) => str_lt(b.as_str(), record.name.as_str()),
            None => true,
        });
        proof {
            assert(rows.take(i + 1) =~= rows.take(i as int).push(rows[i as int]));
            lemma_filter_push(
                rows.take(i as int),
                rows[i as int],
                |row: (Seq<char>, NoteEntry)|
                    row.1.topic@ == topic@ && row.1.sub_topic@ == sub_topic@ && after_start(
                        opt_view(start_after),
                        row.1.name@,
                    ),
            );
            assert(notes_matching(rows.take(i + 1), topic@, sub_topic@, opt_view(start_after))
                == (if (rows[i as int].1.topic@ == topic@ && rows[i as int].1.sub_topic@
                == sub_topic@ && after_start(opt_view(start_after), rows[i as int].1.name@)) {
                m_i.push(rows[i as int])
            } else {
                m_i
            }));
            assert(keep == (rows[i as int].1.topic@ == topic@ && rows[i as int].1.sub_topic@
                == sub_topic@ && after_start(opt_view(start_after), rows[i as int].1.name@)));
        }
        if keep && out.len() < lim {
            out.push(record.clone());
        }
        i = i + 1;
    }
    proof {
        assert(state.notes.rows().take(n as int) =~= state.notes.rows());
    }
    NoteResponse { entries: out }
}

/// Fetch the single note under `(topic, sub_topic, name)`; fails with
/// `NotFound` when it is absent.
pub fn query_note(state: &NotesState, topic: &str, sub_topic: &str, name: &str) -> (r: Result<
    NoteEntry,
    ContractError,
>)
    requires
        state.wf(),
    ensures
        match r {
            Ok(e) => state.notes.has_key(note_key_view(topic@, sub_topic@, name@)) && e@
                == state.notes_map()[note_key_view(topic@, sub_topic@, name@)],
            Err(e) => !state.notes.has_key(note_key_view(topic@, sub_topic@, name@)) && e
                == ContractError::NotFound,
        },
{
    let key = crate::codec::note_store_key(topic, sub_topic, name);
    match state.notes.get(key.as_str()) {
        Some(entry) => Ok(entry.clone()),
        None => Err(ContractError::NotFound),
    }
}

/// Answer one read request against the current state.
pub fn query(state: &NotesState, msg: QueryMsg) -> (r: Result<QueryAnswer, ContractError>)
    requires
        state.wf(),
    ensures
        match msg {
            QueryMsg::Ownership {  } => (match r {
                Ok(QueryAnswer::Ownership(o)) => o == state.ownership,
                _ => false,
            }),
            QueryMsg::Writers { start_after, limit } => (match r {
                Ok(QueryAnswer::Writers(resp)) => ({
                    let m = key_matching(state.writers.rows(), opt_view(start_after));
                    &&& resp.entries@.len() == spec_page_len(m.len(), spec_clamp(limit))
                    &&& forall|j: int|
                        0 <= j < resp.entries@.len() ==> (#[trigger] resp.entries@[j])@
                            == (NoteWriterV { address: m[j].0, name: m[j].1@ })
                }),
                Err(e) => e == ContractError::InvalidAddress && (match start_after {
                    Some(s) => s@.len() == 0,
                    None => false,
                }),
                _ => false,
            }),
            QueryMsg::Topics { start_after, limit } => (match r {
                Ok(QueryAnswer::Topics(resp)) => ({
                    let m = key_matching(state.topics.rows(), opt_view(start_after));
                    &&& resp.entries@.len() == spec_page_len(m.len(), spec_clamp(limit))
                    &&& forall|j: int|
                        0 <= j < resp.entries@.len() ==> (#[trigger] resp.entries@[j])@ == m[j].1@
                }),
                _ => false,
            }),
            QueryMsg::SubTopics { topic, start_after, limit } => (match r {
                Ok(QueryAnswer::SubTopics(resp)) => ({
                    let m = subtopics_matching(
                        state.subtopics.rows(),
                        topic@,
                        opt_view(start_after),
                    );
                    &&& resp.entries@.len() == spec_page_len(m.len(), spec_clamp(limit))
                    &&& forall|j: int|
                        0 <= j < resp.entries@.len() ==> (#[trigger] resp.entries@[j])@ == m[j].1@
                }),
                _ => false,
            }),
            QueryMsg::Entries { topic, sub_topic, start_after, limit } => (match r {
                Ok(QueryAnswer::Entries(resp)) => ({
                    let m = notes_matching(
                        state.notes.rows(),
                        topic@,
                        sub_topic@,
                        opt_view(start_after),
                    );
                    &&& resp.entries@.len() == spec_page_len(m.len(), spec_clamp(limit))
                    &&& forall|j: int|
                        0 <= j < resp.entries@.len() ==> (#[trigger] resp.entries@[j])@ == m[j].1@
                }),
                _ => false,
            }),
            QueryMsg::Note { topic, sub_topic, name } => (match r {
                Ok(QueryAnswer::Note(e)) => state.notes.has_key(
                    note_key_view(topic@, sub_topic@, name@),
                ) && e@ == state.notes_map()[note_key_view(topic@, sub_topic@, name@)],
                Err(e) => !state.notes.has_key(note_key_view(topic@, sub_topic@, name@)) && e
                    == ContractError::NotFound,
                _ => false,
            }),
        },
{
    match msg {
        QueryMsg::Ownership {  } => Ok(QueryAnswer::Ownership(state.ownership.snapshot())),
        QueryMsg::Writers { start_after, limit } => {
            let resp = query_writer(state, start_after, limit)?;
            Ok(QueryAnswer::Writers(resp))
        },
        QueryMsg::Topics { start_after, limit } => Ok(
            QueryAnswer::Topics(query_topics(state, start_after, limit)),
        ),
        QueryMsg::SubTopics { topic, start_after, limit } => Ok(
            QueryAnswer::SubTopics(query_sub_topics(state, topic.as_str(), start_after, limit)),
        ),
        QueryMsg::Entries { topic, sub_topic, start_after, limit } => Ok(
            QueryAnswer::Entries(
                query_entries(state, topic.as_str(), sub_topic.as_str(), start_after, limit),
            ),
        ),
        QueryMsg::Note { topic, sub_topic, name } => {
            let e = query_note(state, topic.as_str(), sub_topic.as_str(), name.as_str())?;
            Ok(QueryAnswer::Note(e))
        },
    }
}

} // verus!
