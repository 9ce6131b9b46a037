//! Lexicographic order on character sequences.
//!
//! Every collection in this crate keeps its entries sorted by this order, and
//! every paginated query hands results out ascending in it. The executable
//! comparator `str_compare` is proved to agree with the specification-level
//! order `lex_lt`.

use vstd::prelude::*;

verus! {

broadcast use vstd::utf8::char_is_scalar, vstd::utf8::char_u32_cast;

/// Strict lexicographic order: `a` comes before `b` when, at the first
/// position where they differ, `a` holds the smaller character, or when `a`
/// is a strict prefix of `b`.
pub open spec fn lex_lt(a: Seq<char>, b: Seq<char>) -> bool
    decreases a.len(),
{
    if b.len() == 0 {
        false
    } else if a.len() == 0 {
        true
    } else if (a[0] as u32) < (b[0] as u32) {
        true
    } else if a[0] == b[0] {
        lex_lt(a.skip(1), b.skip(1))
    } else {
        false
    }
}

/// Reflexive closure of `lex_lt`.
pub open spec fn lex_le(a: Seq<char>, b: Seq<char>) -> bool {
    lex_lt(a, b) || a == b
}

/// The order is total: two sequences compare one way, the other way, or are equal.
pub proof fn lemma_lex_total(a: Seq<char>, b: Seq<char>)
    ensures
        lex_lt(a, b) || lex_lt(b, a) || a == b,
    decreases a.len(),
{
    if a.len() == 0 && b.len() == 0 {
        assert(a =~= b);
    } else if a.len() != 0 && b.len() != 0 {
        if a[0] == b[0] {
            lemma_lex_total(a.skip(1), b.skip(1));
            if a.skip(1) == b.skip(1) {
                assert(a.skip(1).len() == b.skip(1).len());
                assert forall|i: int| 0 <= i < a.len() implies a[i] == b[i] by {
                    if i >= 1 {
                        assert(a.skip(1)[i - 1] == b.skip(1)[i - 1]);
                    }
                }
                assert(a =~= b);
            }
        } else {
            vstd::utf8::char_u32_cast(a[0], a[0] as u32);
            vstd::utf8::char_u32_cast(b[0], b[0] as u32);
            if (a[0] as u32) < (b[0] as u32) {
                assert(lex_lt(a, b));
            } else if (b[0] as u32) < (a[0] as u32) {
                assert(lex_lt(b, a));
            } else {
                assert(a[0] == b[0]);
            }
        }
    }
}

/// The order is asymmetric, and in particular irreflexive.
pub proof fn lemma_lex_asym(a: Seq<char>, b: Seq<char>)
    requires
        lex_lt(a, b),
    ensures
        !lex_lt(b, a),
        a != b,
    decreases a.len(),
{
    if a.len() != 0 && b.len() != 0 && a[0] == b[0] {
        lemma_lex_asym(a.skip(1), b.skip(1));
        if a == b {
            assert(a.skip(1) =~= b.skip(1));
        }
    } else if a.len() == 0 {
        assert(a != b);
    }
}

/// No sequence comes before itself.
pub proof fn lemma_lex_irrefl(a: Seq<char>)
    ensures
        !lex_lt(a, a),
{
    if lex_lt(a, a) {
        lemma_lex_asym(a, a);
    }
}

/// The order is transitive.
pub proof fn lemma_lex_trans(a: Seq<char>, b: Seq<char>, c: Seq<char>)
    requires
        lex_lt(a, b),
        lex_lt(b, c),
    ensures
        lex_lt(a, c),
    decreases a.len(),
{
    if a.len() != 0 && b.len() != 0 && c.len() != 0 {
        if a[0] == b[0] && b[0] == c[0] {
            lemma_lex_trans(a.skip(1), b.skip(1), c.skip(1));
        }
    }
}

/// Extending two sequences that already differ at some position within both
/// keeps their relative order, whatever is appended.
pub proof fn lemma_lex_from_prefix(a: Seq<char>, b: Seq<char>, i: int)
    requires
        0 <= i <= a.len(),
        i <= b.len(),
        a.subrange(0, i) == b.subrange(0, i),
    ensures
        (i == a.len() && i == b.len()) ==> a == b,
        (i == a.len() && i < b.len()) ==> lex_lt(a, b),
        (i < a.len() && i == b.len()) ==> lex_lt(b, a),
        (i < a.len() && i < b.len() && (a[i] as u32) < (b[i] as u32)) ==> lex_lt(a, b),
        (i < a.len() && i < b.len() && (b[i] as u32) < (a[i] as u32)) ==> lex_lt(b, a),
    decreases i,
{
    if i == 0 {
        if a.len() == 0 && b.len() == 0 {
            assert(a =~= b);
        }
    } else {
        assert(a[0] == b[0]) by {
            assert(a.subrange(0, i)[0] == a[0]);
            assert(b.subrange(0, i)[0] == b[0]);
        }
        assert(a.skip(1).subrange(0, i - 1) == b.skip(1).subrange(0, i - 1)) by {
            assert(a.skip(1).subrange(0, i - 1) =~= a.subrange(0, i).skip(1));
            assert(b.skip(1).subrange(0, i - 1) =~= b.subrange(0, i).skip(1));
        }
        lemma_lex_from_prefix(a.skip(1), b.skip(1), i - 1);
        if i == a.len() && i == b.len() && a.skip(1) == b.skip(1) {
            assert forall|j: int| 0 <= j < a.len() implies a[j] == b[j] by {
                if j >= 1 {
                    assert(a.skip(1)[j - 1] == b.skip(1)[j - 1]);
                }
            }
            assert(a =~= b);
        }
        assert(i < a.len() ==> a.skip(1)[i - 1] == a[i]);
        assert(i < b.len() ==> b.skip(1)[i - 1] == b[i]);
    }
}

/// Three-way comparison of two strings, agreeing with `lex_lt` on their views.
pub fn str_compare(a: &str, b: &str) -> (c: i8)
    ensures
        (c == -1i8) <==> lex_lt(a@, b@),
        (c == 0i8) <==> (a@ == b@),
        (c == 1i8) <==> lex_lt(b@, a@),
{
    let na: usize = a.unicode_len();
    let nb: usize = b.unicode_len();
    let mut i: usize = 0;
    loop
        invariant
            i <= na,
            i <= nb,
            na == a@.len(),
            nb == b@.len(),
            a@.subrange(0, i as int) =~= b@.subrange(0, i as int),
        decreases na - i,
    {
        proof {
            lemma_lex_from_prefix(a@, b@, i as int);
        }
        if i == na && i == nb {
            proof {
                lemma_lex_irrefl(a@);
            }
            return 0;
        }
        if i == na {
            proof {
                lemma_lex_asym(a@, b@);
            }
            return -1;
        }
        if i == nb {
            proof {
                lemma_lex_asym(b@, a@);
            }
            return 1;
        }
        let ca = a.get_char(i);
        let cb = b.get_char(i);
        if (ca as u32) < (cb as u32) {
            proof {
                lemma_lex_asym(a@, b@);
            }
            return -1;
        }
        if (cb as u32) < (ca as u32) {
            proof {
                lemma_lex_asym(b@, a@);
            }
            return 1;
        }
        proof {
            assert(ca == cb);
            assert(a@.subrange(0, i + 1 as int) =~= b@.subrange(0, i + 1 as int));
        }
        i = i + 1;
    }
}

/// Whether `a` comes strictly before `b`.
pub fn str_lt(a: &str, b: &str) -> (r: bool)
    ensures
        r == lex_lt(a@, b@),
{
    str_compare(a, b) == -1
}

/// Whether the two strings hold the same characters.
pub fn str_eq(a: &str, b: &str) -> (r: bool)
    ensures
        r == (a@ == b@),
{
    str_compare(a, b) == 0
}

} // verus!
