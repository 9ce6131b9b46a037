//! System-wide guarantees proved from the operation contracts.
//!
//! Each proof function here states one law of the registry over the spec
//! functions and views that the operations' own contracts use, so a caller
//! can rely on it without re-deriving it from the contracts.

use vstd::prelude::*;

use crate::codec::{lemma_note_key_order, note_key_view};
use crate::order::lex_lt;
use crate::table::rows_wf;
use crate::types::NoteEntry;
use crate::execute::{
    spec_add_note_applied, spec_rm_note_applied, spec_rm_subtopic_applied, spec_rm_topic_applied,
};
use crate::query::{notes_matching, spec_clamp, spec_page_len};
use crate::state::NotesState;
use crate::types::{NoteEntryV, NoteType};

verus! {

broadcast use vstd::seq_lib::group_filter_ensures, Seq::lemma_filter_contains_rev;

/// Round trip: after a note write, fetching the same `(topic, sub_topic,
/// name)` finds exactly the entry that was stored, with the writer recorded.
pub proof fn lemma_add_then_get(
    pre: NotesState,
    post: NotesState,
    sender: Seq<char>,
    topic: Seq<char>,
    sub: Seq<char>,
    name: Seq<char>,
    note_type: NoteType,
    note: Seq<char>,
)
    requires
        spec_add_note_applied(pre, post, sender, topic, sub, name, note_type, note),
    ensures
        post.notes.has_key(note_key_view(topic, sub, name)),
        post.notes_map()[note_key_view(topic, sub, name)] == (NoteEntryV {
            writer: sender,
            topic,
            sub_topic: sub,
            name,
            note_type,
            note,
        }),
{
    let k = note_key_view(topic, sub, name);
    assert(post.notes_map().dom().contains(k));
}

/// A removed note is gone: after a note removal the key is absent, so a
/// fetch fails, and no scoped listing of that `(topic, sub_topic)` holds an
/// entry under the removed name any more.
pub proof fn lemma_remove_note_gone(
    pre: NotesState,
    post: NotesState,
    topic: Seq<char>,
    sub: Seq<char>,
    name: Seq<char>,
)
    requires
        post.wf(),
        spec_rm_note_applied(pre, post, topic, sub, name),
    ensures
        !post.notes.has_key(note_key_view(topic, sub, name)),
        forall|start: Option<Seq<char>>, j: int|
            0 <= j < notes_matching(post.notes.rows(), topic, sub, start).len()
                ==> (#[trigger] notes_matching(post.notes.rows(), topic, sub, start)[j]).1.name@
                != name,
{
    let k = note_key_view(topic, sub, name);
    assert(!post.notes_map().dom().contains(k));
    assert forall|start: Option<Seq<char>>, j: int|
        0 <= j < notes_matching(post.notes.rows(), topic, sub, start).len() implies (
    #[trigger] notes_matching(post.notes.rows(), topic, sub, start)[j]).1.name@ != name by {
        let m = notes_matching(post.notes.rows(), topic, sub, start);
        let row = m[j];
        if row.1.name@ == name {
            assert(row.1.topic@ == topic && row.1.sub_topic@ == sub);
            assert(m.contains(row));
            assert(post.notes.rows().contains(row));
            let w = choose|w: int|
                0 <= w < post.notes.rows().len() && post.notes.rows()[w] == row;
            assert(post.notes.rows()[w].0 == note_key_view(topic, sub, name));
            assert(post.notes.has_key(k));
        }
    }
}

/// Removing a topic marker does not cascade: every note (and every subtopic
/// marker) that was fetchable before remains fetchable, unchanged, by its
/// exact key.
pub proof fn lemma_remove_topic_keeps_notes(pre: NotesState, post: NotesState, topic: Seq<char>)
    requires
        spec_rm_topic_applied(pre, post, topic),
    ensures
        forall|k: Seq<char>| pre.notes.has_key(k) == post.notes.has_key(k),
        forall|k: Seq<char>|
            post.notes.has_key(k) ==> post.notes_map()[k] == pre.notes_map()[k],
        forall|k: Seq<char>| pre.subtopics.has_key(k) == post.subtopics.has_key(k),
{
}

/// Removing a subtopic marker does not cascade: every note that was
/// fetchable before remains fetchable, unchanged, by its exact key.
pub proof fn lemma_remove_subtopic_keeps_notes(
    pre: NotesState,
    post: NotesState,
    topic: Seq<char>,
    sub: Seq<char>,
)
    requires
        spec_rm_subtopic_applied(pre, post, topic, sub),
    ensures
        forall|k: Seq<char>| pre.notes.has_key(k) == post.notes.has_key(k),
        forall|k: Seq<char>|
            post.notes.has_key(k) ==> post.notes_map()[k] == pre.notes_map()[k],
{
}

/// A writer or topic listing is strictly ascending by key, whatever cursor
/// it starts from: the tables are key-sorted and filtering keeps the order.
pub proof fn lemma_key_matching_sorted(rows: Seq<(Seq<char>, String)>, start: Option<Seq<char>>)
    requires
        rows_wf(rows),
    ensures
        ({
            let m = crate::query::key_matching(rows, start);
            forall|i: int, j: int|
                0 <= i < j < m.len() ==> lex_lt((#[trigger] m[i]).0, (#[trigger] m[j]).0)
        }),
    decreases rows.len(),
{
    reveal(Seq::filter);
    let m = crate::query::key_matching(rows, start);
    if rows.len() > 0 {
        let r0 = rows.drop_last();
        let e = rows.last();
        assert(forall|i: int| 0 <= i < r0.len() ==> r0[i] == rows[i]);
        lemma_key_matching_sorted(r0, start);
        let m0 = crate::query::key_matching(r0, start);
        assert forall|i: int, j: int| 0 <= i < j < m.len() implies lex_lt(
            (#[trigger] m[i]).0,
            (#[trigger] m[j]).0,
        ) by {
            if j < m0.len() {
                assert(m[i] == m0[i] && m[j] == m0[j]);
            } else {
                assert(m == m0.push(e));
                assert(m[i] == m0[i]);
                let row = m0[i];
                assert(m0.contains(row));
                assert(r0.contains(row));
                let w = choose|w: int| 0 <= w < r0.len() && r0[w] == row;
                assert(lex_lt(rows[w].0, e.0));
            }
        }
    }
}

/// A subtopic listing is strictly ascending by sub-topic, whatever cursor it
/// starts from: within one topic the key order is the sub-topic order.
pub proof fn lemma_subtopics_matching_sorted(
    rows: Seq<(Seq<char>, crate::types::SubTopicKey)>,
    topic: Seq<char>,
    start: Option<Seq<char>>,
)
    requires
        rows_wf(rows),
        forall|i: int|
            0 <= i < rows.len() ==> (#[trigger] rows[i]).0 == crate::codec::subtopic_key_view(
                rows[i].1.topic@,
                rows[i].1.sub_topic@,
            ),
    ensures
        ({
            let m = crate::query::subtopics_matching(rows, topic, start);
            forall|i: int, j: int|
                0 <= i < j < m.len() ==> lex_lt(
                    (#[trigger] m[i]).1.sub_topic@,
                    (#[trigger] m[j]).1.sub_topic@,
                )
        }),
    decreases rows.len(),
{
    reveal(Seq::filter);
    let m = crate::query::subtopics_matching(rows, topic, start);
    if rows.len() > 0 {
        let r0 = rows.drop_last();
        let e = rows.last();
        assert(forall|i: int| 0 <= i < r0.len() ==> r0[i] == rows[i]);
        lemma_subtopics_matching_sorted(r0, topic, start);
        let m0 = crate::query::subtopics_matching(r0, topic, start);
        assert forall|i: int, j: int| 0 <= i < j < m.len() implies lex_lt(
            (#[trigger] m[i]).1.sub_topic@,
            (#[trigger] m[j]).1.sub_topic@,
        ) by {
            if j < m0.len() {
                assert(m[i] == m0[i] && m[j] == m0[j]);
            } else {
                assert(m == m0.push(e));
                assert(m[i] == m0[i]);
                let row = m0[i];
                assert(m0.contains(row));
                assert(r0.contains(row));
                let w = choose|w: int| 0 <= w < r0.len() && r0[w] == row;
                assert(lex_lt(rows[w].0, e.0));
                assert(row.1.topic@ == topic && e.1.topic@ == topic);
                crate::order::lemma_lex_irrefl(topic);
                crate::codec::lemma_subtopic_key_order(
                    row.1.topic@,
                    row.1.sub_topic@,
                    e.1.topic@,
                    e.1.sub_topic@,
                );
            }
        }
    }
}

/// The scoped rows whose name lies strictly above the bound.
pub open spec fn names_above(m: Seq<(Seq<char>, NoteEntry)>, b: Seq<char>) -> Seq<
    (Seq<char>, NoteEntry),
> {
    m.filter(|row: (Seq<char>, NoteEntry)| lex_lt(b, row.1.name@))
}

/// In a well-formed state the scoped note listing is strictly ascending by
/// name: keys sort the table, and within one `(topic, sub_topic)` scope the
/// key order is the name order.
pub proof fn lemma_notes_matching_sorted(
    rows: Seq<(Seq<char>, NoteEntry)>,
    topic: Seq<char>,
    sub: Seq<char>,
    start: Option<Seq<char>>,
)
    requires
        rows_wf(rows),
        forall|i: int|
            0 <= i < rows.len() ==> (#[trigger] rows[i]).0 == note_key_view(
                rows[i].1.topic@,
                rows[i].1.sub_topic@,
                rows[i].1.name@,
            ),
    ensures
        ({
            let m = notes_matching(rows, topic, sub, start);
            forall|i: int, j: int|
                0 <= i < j < m.len() ==> lex_lt(
                    (#[trigger] m[i]).1.name@,
                    (#[trigger] m[j]).1.name@,
                )
        }),
    decreases rows.len(),
{
    reveal(Seq::filter);
    let m = notes_matching(rows, topic, sub, start);
    if rows.len() > 0 {
        let r0 = rows.drop_last();
        let e = rows.last();
        assert(forall|i: int| 0 <= i < r0.len() ==> r0[i] == rows[i]);
        lemma_notes_matching_sorted(r0, topic, sub, start);
        let m0 = notes_matching(r0, topic, sub, start);
        assert forall|i: int, j: int| 0 <= i < j < m.len() implies lex_lt(
            (#[trigger] m[i]).1.name@,
            (#[trigger] m[j]).1.name@,
        ) by {
            if j < m0.len() {
                assert(m[i] == m0[i] && m[j] == m0[j]);
            } else {
                assert(m == m0.push(e));
                assert(m[j] == e);
                assert(m[i] == m0[i]);
                let row = m0[i];
                assert(m0.contains(row));
                assert(r0.contains(row));
                let w = choose|w: int| 0 <= w < r0.len() && r0[w] == row;
                assert(lex_lt(rows[w].0, e.0));
                assert(row.1.topic@ == topic && row.1.sub_topic@ == sub);
                assert(e.1.topic@ == topic && e.1.sub_topic@ == sub);
                crate::order::lemma_lex_irrefl(topic);
                crate::order::lemma_lex_irrefl(sub);
                lemma_note_key_order(
                    row.1.topic@,
                    row.1.sub_topic@,
                    row.1.name@,
                    e.1.topic@,
                    e.1.sub_topic@,
                    e.1.name@,
                );
            }
        }
    }
}

/// Tightening the cursor to a bound that itself lies past the old cursor
/// restricts the scoped listing to the names above the bound.
proof fn lemma_matching_restrict(
    rows: Seq<(Seq<char>, NoteEntry)>,
    topic: Seq<char>,
    sub: Seq<char>,
    start: Option<Seq<char>>,
    b: Seq<char>,
)
    requires
        crate::query::after_start(start, b),
    ensures
        notes_matching(rows, topic, sub, Some(b)) == names_above(
            notes_matching(rows, topic, sub, start),
            b,
        ),
    decreases rows.len(),
{
    reveal(Seq::filter);
    if rows.len() == 0 {
        assert(notes_matching(rows, topic, sub, Some(b)) =~= names_above(
            notes_matching(rows, topic, sub, start),
            b,
        ));
    } else {
        let r0 = rows.drop_last();
        let e = rows.last();
        lemma_matching_restrict(r0, topic, sub, start, b);
        let mst = notes_matching(rows, topic, sub, start);
        let m0st = notes_matching(r0, topic, sub, start);
        let lhs = notes_matching(rows, topic, sub, Some(b));
        let l0 = notes_matching(r0, topic, sub, Some(b));
        if e.1.topic@ == topic && e.1.sub_topic@ == sub && lex_lt(b, e.1.name@) {
            assert(crate::query::after_start(start, e.1.name@)) by {
                if let Some(a) = start {
                    crate::order::lemma_lex_trans(a, b, e.1.name@);
                }
            }
            assert(mst == m0st.push(e));
            assert(lhs == l0.push(e));
            assert(m0st.push(e).drop_last() =~= m0st);
            assert(names_above(mst, b) == names_above(m0st, b).push(e));
        } else {
            assert(lhs == l0);
            if e.1.topic@ == topic && e.1.sub_topic@ == sub && crate::query::after_start(
                start,
                e.1.name@,
            ) {
                assert(mst == m0st.push(e));
                assert(m0st.push(e).drop_last() =~= m0st);
                assert(!lex_lt(b, e.1.name@));
                assert(names_above(mst, b) == names_above(m0st, b));
            } else {
                assert(mst == m0st);
            }
        }
    }
}

/// Dropping everything at or below the bound from a strictly name-sorted
/// listing is the same as skipping a prefix.
proof fn lemma_names_above_skip(m: Seq<(Seq<char>, NoteEntry)>, b: Seq<char>, k: int)
    requires
        0 <= k <= m.len(),
        forall|i: int| 0 <= i < k ==> !lex_lt(b, (#[trigger] m[i]).1.name@),
        forall|i: int| k <= i < m.len() ==> lex_lt(b, (#[trigger] m[i]).1.name@),
    ensures
        names_above(m, b) == m.skip(k),
    decreases m.len(),
{
    reveal(Seq::filter);
    if m.len() == 0 {
        assert(m.skip(k) =~= names_above(m, b));
    } else {
        let m0 = m.drop_last();
        let e = m.last();
        assert(forall|i: int| 0 <= i < m0.len() ==> m0[i] == m[i]);
        if k <= m0.len() {
            lemma_names_above_skip(m0, b, k);
            assert(lex_lt(b, e.1.name@));
            assert(names_above(m, b) == names_above(m0, b).push(e));
            assert(m.skip(k) =~= m0.skip(k).push(e));
        } else {
            assert(k == m.len());
            assert(!lex_lt(b, e.1.name@));
            lemma_names_above_skip(m0, b, m0.len() as int);
            assert(names_above(m, b) == names_above(m0, b));
            assert(m0.skip(m0.len() as int) =~= Seq::<(Seq<char>, NoteEntry)>::empty());
            assert(m.skip(k) =~= Seq::<(Seq<char>, NoteEntry)>::empty());
        }
    }
}

/// Pagination chains without loss, duplication or reordering: a page is a
/// prefix of the scoped listing; re-querying with the cursor set to the last
/// name of a non-empty page yields exactly the rest of the listing; and a
/// page shorter than the limit exhausts the listing, so the next page is
/// empty.
pub proof fn lemma_notes_page_chain(
    s: NotesState,
    topic: Seq<char>,
    sub: Seq<char>,
    start: Option<Seq<char>>,
    limit: Option<u32>,
)
    requires
        s.wf(),
    ensures
        ({
            let m = notes_matching(s.notes.rows(), topic, sub, start);
            let plen = spec_page_len(m.len(), spec_clamp(limit));
            &&& plen > 0 ==> notes_matching(
                s.notes.rows(),
                topic,
                sub,
                Some(m.take(plen as int).last().1.name@),
            ) == m.skip(plen as int)
            &&& plen < spec_clamp(limit) ==> m.skip(plen as int) =~= Seq::<
                (Seq<char>, NoteEntry),
            >::empty()
            &&& forall|i: int, j: int|
                0 <= i < j < m.len() ==> lex_lt(
                    (#[trigger] m[i]).1.name@,
                    (#[trigger] m[j]).1.name@,
                )
        }),
{
    let rows = s.notes.rows();
    let m = notes_matching(rows, topic, sub, start);
    let plen = spec_page_len(m.len(), spec_clamp(limit));
    lemma_notes_matching_sorted(rows, topic, sub, start);
    if plen > 0 {
        let b = m[plen - 1].1.name@;
        assert(m.take(plen as int).last() == m[plen - 1]);
        assert(crate::query::after_start(start, b));
        lemma_matching_restrict(rows, topic, sub, start, b);
        assert forall|i: int| 0 <= i < plen implies !lex_lt(b, (#[trigger] m[i]).1.name@) by {
            if i < plen - 1 {
                crate::order::lemma_lex_asym(m[i].1.name@, b);
            } else {
                crate::order::lemma_lex_irrefl(b);
            }
        }
        lemma_names_above_skip(m, b, plen as int);
    }
}

/// Limit clamping: any limit above 30 behaves exactly as 30, an absent limit
/// as 10, and a zero limit yields an empty page whatever the data holds.
pub proof fn lemma_limit_clamp(limit: u32, total: nat)
    ensures
        limit > 30 ==> spec_clamp(Some(limit)) == spec_clamp(Some(30u32)),
        spec_clamp(Some(30u32)) == 30,
        spec_clamp(None) == 10,
        spec_page_len(total, spec_clamp(Some(0u32))) == 0,
{
}

} // verus!

