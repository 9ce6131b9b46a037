//! Ordered key-value table.
//!
//! Each collection of the registry is a table of rows sorted strictly
//! ascending by key. The table is modelled two ways: as the row sequence
//! (which fixes enumeration order for the paginated queries) and as the
//! derived key-value map (which the mutating operations are specified
//! against). Sortedness makes keys unique, so the two views agree.

use vstd::prelude::*;

use crate::order::{lex_lt, lemma_lex_irrefl, lemma_lex_total, lemma_lex_trans, str_eq, str_lt};

verus! {

/// The rows are sorted strictly ascending by key.
pub open spec fn rows_wf<V>(rows: Seq<(Seq<char>, V)>) -> bool {
    forall|i: int, j: int|
        0 <= i < j < rows.len() ==> lex_lt(#[trigger] rows[i].0, #[trigger] rows[j].0)
}

/// Whether some row holds the given key.
pub open spec fn rows_has_key<V>(rows: Seq<(Seq<char>, V)>, k: Seq<char>) -> bool {
    exists|i: int| 0 <= i < rows.len() && (#[trigger] rows[i].0) == k
}

/// The index of the row holding the given key.
pub open spec fn rows_idx<V>(rows: Seq<(Seq<char>, V)>, k: Seq<char>) -> int {
    choose|i: int| 0 <= i < rows.len() && (#[trigger] rows[i].0) == k
}

/// The key-value map the rows spell out.
pub open spec fn rows_map<V>(rows: Seq<(Seq<char>, V)>) -> Map<Seq<char>, V> {
    Map::new(|k: Seq<char>| rows_has_key(rows, k), |k: Seq<char>| rows[rows_idx(rows, k)].1)
}

/// In a sorted table a key appears in at most one row.
pub proof fn lemma_rows_key_unique<V>(rows: Seq<(Seq<char>, V)>, i: int, j: int)
    requires
        rows_wf(rows),
        0 <= i < rows.len(),
        0 <= j < rows.len(),
        rows[i].0 == rows[j].0,
    ensures
        i == j,
{
    if i < j || j < i {
        lemma_lex_irrefl(rows[i].0);
    }
}

/// The row at any index is what the derived map holds for that row's key.
pub proof fn lemma_rows_map_at<V>(rows: Seq<(Seq<char>, V)>, i: int)
    requires
        rows_wf(rows),
        0 <= i < rows.len(),
    ensures
        rows_has_key(rows, rows[i].0),
        rows_map(rows)[rows[i].0] == rows[i].1,
{
    let k = rows[i].0;
    assert(rows_has_key(rows, k));
    lemma_rows_key_unique(rows, i, rows_idx(rows, k));
}

/// Inserting a row between its neighbours keeps the table sorted and adds
/// exactly one binding to the derived map.
pub proof fn lemma_rows_insert<V>(rows: Seq<(Seq<char>, V)>, i: int, k: Seq<char>, v: V)
    requires
        rows_wf(rows),
        0 <= i <= rows.len(),
        forall|j: int| 0 <= j < i ==> lex_lt(#[trigger] rows[j].0, k),
        forall|j: int| i <= j < rows.len() ==> lex_lt(k, #[trigger] rows[j].0),
    ensures
        rows_wf(rows.insert(i, (k, v))),
        rows_map(rows.insert(i, (k, v))) == rows_map(rows).insert(k, v),
{
    let r2 = rows.insert(i, (k, v));
    assert forall|a: int, b: int| 0 <= a < b < r2.len() implies lex_lt(
        #[trigger] r2[a].0,
        #[trigger] r2[b].0,
    ) by {
        if a < i && b < i {
            assert(r2[a] == rows[a] && r2[b] == rows[b]);
        } else if a < i && b == i {
            assert(r2[a] == rows[a]);
        } else if a < i && b > i {
            assert(r2[a] == rows[a] && r2[b] == rows[b - 1]);
            if b - 1 >= i {
                lemma_lex_trans(rows[a].0, k, rows[b - 1].0);
            }
        } else if a == i {
            assert(r2[b] == rows[b - 1]);
        } else {
            assert(r2[a] == rows[a - 1] && r2[b] == rows[b - 1]);
        }
    }
    assert(rows_map(r2) =~= rows_map(rows).insert(k, v)) by {
        assert forall|x: Seq<char>| rows_has_key(r2, x) implies (x == k || rows_has_key(rows, x)) by {
            let w = choose|w: int| 0 <= w < r2.len() && (#[trigger] r2[w].0) == x;
            if w < i {
                assert(rows[w].0 == x);
            } else if w > i {
                assert(rows[w - 1].0 == x);
            }
        }
        assert forall|x: Seq<char>| rows_has_key(rows, x) implies rows_has_key(r2, x) by {
            let w = choose|w: int| 0 <= w < rows.len() && (#[trigger] rows[w].0) == x;
            if w < i {
                assert(r2[w].0 == x);
            } else {
                assert(r2[w + 1].0 == x);
            }
        }
        assert(rows_has_key(r2, k)) by {
            assert(r2[i].0 == k);
        }
        assert forall|x: Seq<char>| rows_has_key(r2, x) implies rows_map(r2)[x] == rows_map(
            rows,
        ).insert(k, v)[x] by {
            let w = rows_idx(r2, x);
            assert(0 <= w < r2.len() && r2[w].0 == x);
            lemma_rows_map_at(r2, w);
            if w == i {
                assert(x == k);
                assert(rows_map(r2)[x] == v);
            } else if w < i {
                lemma_lex_irrefl(k);
                assert(x != k);
                lemma_rows_map_at(rows, w);
            } else {
                lemma_lex_irrefl(k);
                assert(x != k);
                assert(rows[w - 1] == r2[w]);
                lemma_rows_map_at(rows, w - 1);
            }
        }
    }
}

/// Removing a row keeps the table sorted and drops exactly that row's binding
/// from the derived map.
pub proof fn lemma_rows_remove<V>(rows: Seq<(Seq<char>, V)>, i: int)
    requires
        rows_wf(rows),
        0 <= i < rows.len(),
    ensures
        rows_wf(rows.remove(i)),
        rows_map(rows.remove(i)) == rows_map(rows).remove(rows[i].0),
{
    let k = rows[i].0;
    let r2 = rows.remove(i);
    assert forall|a: int, b: int| 0 <= a < b < r2.len() implies lex_lt(
        #[trigger] r2[a].0,
        #[trigger] r2[b].0,
    ) by {
        if a < i && b < i {
            assert(r2[a] == rows[a] && r2[b] == rows[b]);
        } else if a < i {
            assert(r2[a] == rows[a] && r2[b] == rows[b + 1]);
        } else {
            assert(r2[a] == rows[a + 1] && r2[b] == rows[b + 1]);
        }
    }
    assert(rows_map(r2) =~= rows_map(rows).remove(k)) by {
        assert forall|x: Seq<char>| rows_has_key(r2, x) implies rows_has_key(rows, x) && x != k by {
            let w = choose|w: int| 0 <= w < r2.len() && (#[trigger] r2[w].0) == x;
            if w < i {
                assert(rows[w].0 == x);
                if x == k {
                    lemma_rows_key_unique(rows, w, i);
                }
            } else {
                assert(rows[w + 1].0 == x);
                if x == k {
                    lemma_rows_key_unique(rows, w + 1, i);
                }
            }
        }
        assert forall|x: Seq<char>| rows_has_key(rows, x) && x != k implies rows_has_key(
            r2,
            x,
        ) by {
            let w = choose|w: int| 0 <= w < rows.len() && (#[trigger] rows[w].0) == x;
            if w < i {
                assert(r2[w].0 == x);
            } else if w > i {
                assert(r2[w - 1].0 == x);
            }
        }
        assert forall|x: Seq<char>| rows_has_key(r2, x) implies rows_map(r2)[x] == rows_map(
            rows,
        ).remove(k)[x] by {
            let w = rows_idx(r2, x);
            assert(0 <= w < r2.len() && r2[w].0 == x);
            lemma_rows_map_at(r2, w);
            if x == k {
                if w < i {
                    lemma_rows_key_unique(rows, w, i);
                } else {
                    assert(rows[w + 1].0 == x);
                    lemma_rows_key_unique(rows, w + 1, i);
                }
            }
            if w < i {
                lemma_rows_map_at(rows, w);
            } else {
                assert(rows[w + 1] == r2[w]);
                lemma_rows_map_at(rows, w + 1);
            }
        }
    }
}

/// A pointwise row property carries over to a table whose rows each either
/// satisfy it themselves or come from a table whose rows all satisfy it.
pub proof fn lemma_rows_property<V>(
    rows0: Seq<(Seq<char>, V)>,
    rows1: Seq<(Seq<char>, V)>,
    p: spec_fn((Seq<char>, V)) -> bool,
)
    requires
        forall|i: int| 0 <= i < rows0.len() ==> #[trigger] p(rows0[i]),
        forall|i: int| 0 <= i < rows1.len() ==> rows0.contains(#[trigger] rows1[i]) || p(rows1[i]),
    ensures
        forall|i: int| 0 <= i < rows1.len() ==> #[trigger] p(rows1[i]),
{
    assert forall|i: int| 0 <= i < rows1.len() implies #[trigger] p(rows1[i]) by {
        if rows0.contains(rows1[i]) {
            let j = choose|j: int| 0 <= j < rows0.len() && rows0[j] == rows1[i];
            assert(p(rows0[j]));
        }
    }
}

/// An ordered table: rows sorted strictly ascending by key.
pub struct OrderedTable<V> {
    entries: Vec<(String, V)>,
}

impl<V> OrderedTable<V> {
    /// The row sequence, with keys abstracted to character sequences.
    pub closed spec fn rows(&self) -> Seq<(Seq<char>, V)> {
        self.entries@.map_values(|p: (String, V)| (p.0@, p.1))
    }

    /// The table invariant: rows sorted strictly ascending by key.
    pub open spec fn wf(&self) -> bool {
        rows_wf(self.rows())
    }

    /// Whether the table holds the key.
    pub open spec fn has_key(&self, k: Seq<char>) -> bool {
        rows_has_key(self.rows(), k)
    }

    /// The key-value map the table spells out.
    pub open spec fn kv_map(&self) -> Map<Seq<char>, V> {
        rows_map(self.rows())
    }

    /// An empty table.
    pub fn new() -> (t: Self)
        ensures
            t.wf(),
            t.rows() =~= Seq::<(Seq<char>, V)>::empty(),
            t.kv_map() =~= Map::<Seq<char>, V>::empty(),
    {
        let t = OrderedTable { entries: Vec::new() };
        proof {
            assert(t.rows() =~= Seq::<(Seq<char>, V)>::empty());
            assert forall|x: Seq<char>| !rows_has_key(t.rows(), x) by {}
        }
        t
    }

    /// Number of rows.
    pub fn len(&self) -> (n: usize)
        ensures
            n == self.rows().len(),
    {
        self.entries.len()
    }

    /// The key of the row at the given position.
    pub fn key_at(&self, i: usize) -> (k: &String)
        requires
            i < self.rows().len(),
        ensures
            k@ == self.rows()[i as int].0,
    {
        &self.entries[i].0
    }

    /// The value of the row at the given position.
    pub fn value_at(&self, i: usize) -> (v: &V)
        requires
            i < self.rows().len(),
        ensures
            *v == self.rows()[i as int].1,
    {
        &self.entries[i].1
    }

    /// The first position whose key is not below the probe key.
    fn lower_bound(&self, key: &str) -> (i: usize)
        requires
            self.wf(),
        ensures
            i <= self.rows().len(),
            forall|j: int| 0 <= j < i ==> lex_lt(#[trigger] self.rows()[j].0, key@),
            i < self.rows().len() ==> !lex_lt(self.rows()[i as int].0, key@),
    {
        let n = self.entries.len();
        let mut i: usize = 0;
        while i < n
            invariant
                i <= n,
                n == self.rows().len(),
                forall|j: int| 0 <= j < i ==> lex_lt(#[trigger] self.rows()[j].0, key@),
            decreases n - i,
        {
            if !str_lt(self.entries[i].0.as_str(), key) {
                return i;
            }
            proof {
                assert(self.rows()[i as int].0 == self.entries@[i as int].0@);
            }
            i = i + 1;
        }
        i
    }

    /// Look a key up, returning a reference to its value when present.
    pub fn get(&self, key: &str) -> (r: Option<&V>)
        requires
            self.wf(),
        ensures
            match r {
                Some(v) => self.has_key(key@) && *v == self.kv_map()[key@],
                None => !self.has_key(key@),
            },
    {
        let n = self.entries.len();
        let mut i: usize = 0;
        while i < n
            invariant
                i <= n,
                n == self.rows().len(),
                self.wf(),
                forall|j: int| 0 <= j < i ==> (#[trigger] self.rows()[j].0) != key@,
            decreases n - i,
        {
            if str_eq(self.entries[i].0.as_str(), key) {
                proof {
                    assert(self.rows()[i as int].0 == key@);
                    lemma_rows_map_at(self.rows(), i as int);
                }
                return Some(&self.entries[i].1);
            }
            proof {
                assert(self.rows()[i as int].0 == self.entries@[i as int].0@);
            }
            i = i + 1;
        }
        None
    }

    /// Insert a binding, replacing any binding the key already had.
    pub fn upsert(&mut self, key: String, value: V)
        requires
            old(self).wf(),
        ensures
            final(self).wf(),
            final(self).kv_map() == old(self).kv_map().insert(key@, value),
            final(self).rows().len() <= old(self).rows().len() + 1,
            forall|i: int|
                0 <= i < final(self).rows().len() ==> ((#[trigger] final(self).rows()[i]) == (
                key@,
                value,
            ) || old(self).rows().contains(final(self).rows()[i])),
    {
        let ghost rows0 = self.rows();
        let i = self.lower_bound(key.as_str());
        let n = self.entries.len();
        if i < n && str_eq(self.entries[i].0.as_str(), key.as_str()) {
            proof {
                assert(self.rows()[i as int].0 == key@);
            }
            self.entries.remove(i);
            proof {
                assert(self.rows() =~= rows0.remove(i as int));
                lemma_rows_remove(rows0, i as int);
                assert forall|j: int| i <= j < self.rows().len() implies lex_lt(
                    key@,
                    #[trigger] self.rows()[j].0,
                ) by {
                    assert(self.rows()[j] == rows0[j + 1]);
                }
            }
            let ghost rows1 = self.rows();
            self.entries.insert(i, (key, value));
            proof {
                assert(self.rows() =~= rows1.insert(i as int, (key@, value)));
                lemma_rows_insert(rows1, i as int, key@, value);
                assert(final(self).kv_map() =~= old(self).kv_map().insert(key@, value));
                assert forall|j: int| 0 <= j < final(self).rows().len() implies ((
                #[trigger] final(self).rows()[j]) == (key@, value) || old(self).rows().contains(
                    final(self).rows()[j],
                )) by {
                    if j != i {
                        if j < i {
                            assert(final(self).rows()[j] == rows0[j]);
                        } else {
                            assert(final(self).rows()[j] == rows1[j - 1]);
                            assert(rows1[j - 1] == rows0[j]);
                        }
                    }
                }
            }
        } else {
            proof {
                assert forall|j: int| i <= j < self.rows().len() implies lex_lt(
                    key@,
                    #[trigger] self.rows()[j].0,
                ) by {
                    lemma_lex_total(key@, self.rows()[i as int].0);
                    if self.rows()[i as int].0 == key@ {
                        assert(self.entries@[i as int].0@ == key@);
                    }
                    if j > i {
                        lemma_lex_trans(key@, self.rows()[i as int].0, self.rows()[j].0);
                    }
                }
            }
            self.entries.insert(i, (key, value));
            proof {
                assert(self.rows() =~= rows0.insert(i as int, (key@, value)));
                lemma_rows_insert(rows0, i as int, key@, value);
                assert(final(self).kv_map() =~= old(self).kv_map().insert(key@, value));
                assert forall|j: int| 0 <= j < final(self).rows().len() implies ((
                #[trigger] final(self).rows()[j]) == (key@, value) || old(self).rows().contains(
                    final(self).rows()[j],
                )) by {
                    if j < i {
                        assert(final(self).rows()[j] == rows0[j]);
                    } else if j > i {
                        assert(final(self).rows()[j] == rows0[j - 1]);
                    }
                }
            }
        }
    }

    /// Remove a key's binding when present; reports whether it was there.
    pub fn remove(&mut self, key: &str) -> (r: bool)
        requires
            old(self).wf(),
        ensures
            final(self).wf(),
            final(self).kv_map() == old(self).kv_map().remove(key@),
            r == old(self).has_key(key@),
            !r ==> *final(self) == *old(self),
            forall|i: int|
                0 <= i < final(self).rows().len() ==> old(self).rows().contains(
                    #[trigger] final(self).rows()[i],
                ),
    {
        let ghost rows0 = self.rows();
        let n = self.entries.len();
        let mut i: usize = 0;
        while i < n
            invariant
                i <= n,
                n == self.rows().len(),
                self.wf(),
                self.rows() == rows0,
                rows0 == old(self).rows(),
                *self == *old(self),
                forall|j: int| 0 <= j < i ==> (#[trigger] self.rows()[j].0) != key@,
            decreases n - i,
        {
            if str_eq(self.entries[i].0.as_str(), key) {
                proof {
                    assert(rows0[i as int].0 == key@);
                    assert(rows_has_key(rows0, key@));
                }
                self.entries.remove(i);
                proof {
                    assert(self.rows() =~= rows0.remove(i as int));
                    lemma_rows_remove(rows0, i as int);
                    assert(self.kv_map() =~= rows_map(rows0).remove(key@));
                    assert forall|j: int| 0 <= j < self.rows().len() implies rows0.contains(
                        #[trigger] self.rows()[j],
                    ) by {
                        if j < i {
                            assert(self.rows()[j] == rows0[j]);
                        } else {
                            assert(self.rows()[j] == rows0[j + 1]);
                        }
                    }
                }
                return true;
            }
            proof {
                assert(self.rows()[i as int].0 == self.entries@[i as int].0@);
            }
            i = i + 1;
        }
        proof {
            assert(!rows_has_key(rows0, key@));
            assert(self.kv_map() =~= rows_map(rows0).remove(key@)) by {
                assert(!rows_map(rows0).dom().contains(key@));
            }
        }
        false
    }
}

} // verus!
