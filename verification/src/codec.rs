//! Order-preserving composite-key codec.
//!
//! Storage keys for subtopics and notes are flat strings built from the tuple
//! components. Each component is escaped so that it cannot contain the
//! separator character, and the components are joined with the separator.
//! Because the separator orders below every escaped character, comparing two
//! encoded keys lexicographically agrees with comparing the tuples
//! component-by-component (topic-major), and the encoding is injective: two
//! distinct tuples can never collide, whatever characters the components hold.

use vstd::prelude::*;

use crate::order::{lex_lt, lemma_lex_asym, lemma_lex_from_prefix, lemma_lex_irrefl, lemma_lex_total};

verus! {

broadcast use vstd::utf8::char_is_scalar;

/// Separator between encoded components; orders below every escaped character.
pub const SEP: char = '\u{0}';

/// Encoding of a single component character. The two characters that could be
/// confused with the separator or the escape are written as two-character
/// escape pairs whose second character is shifted up by one; every other
/// character stands for itself.
pub open spec fn esc_char(c: char) -> Seq<char> {
    if c == '\u{0}' {
        seq!['\u{1}', '\u{1}']
    } else if c == '\u{1}' {
        seq!['\u{1}', '\u{2}']
    } else {
        seq![c]
    }
}

/// Escaped form of a whole component.
pub open spec fn esc(s: Seq<char>) -> Seq<char>
    decreases s.len(),
{
    if s.len() == 0 {
        Seq::empty()
    } else {
        esc_char(s[0]) + esc(s.skip(1))
    }
}

/// Storage key of a subtopic `(topic, sub_topic)`.
pub open spec fn subtopic_key_view(topic: Seq<char>, sub: Seq<char>) -> Seq<char> {
    esc(topic) + seq![SEP] + esc(sub)
}

/// Storage key of a note `(topic, sub_topic, name)`.
pub open spec fn note_key_view(topic: Seq<char>, sub: Seq<char>, name: Seq<char>) -> Seq<char> {
    esc(topic) + seq![SEP] + esc(sub) + seq![SEP] + esc(name)
}

/// Common prefix of the storage keys of every note under `(topic, sub_topic)`.
pub open spec fn note_prefix_view(topic: Seq<char>, sub: Seq<char>) -> Seq<char> {
    esc(topic) + seq![SEP] + esc(sub) + seq![SEP]
}

/// Casting a character to its scalar value and back is the identity; two
/// characters with the same scalar value are therefore the same character.
pub proof fn lemma_char_inj(c: char, d: char)
    requires
        c as u32 == d as u32,
    ensures
        c == d,
{
    vstd::utf8::char_u32_cast(c, c as u32);
    vstd::utf8::char_u32_cast(d, d as u32);
}

/// The separator never appears in an escaped component.
pub proof fn lemma_esc_no_sep(s: Seq<char>)
    ensures
        forall|i: int| 0 <= i < esc(s).len() ==> (#[trigger] esc(s)[i]) != SEP,
    decreases s.len(),
{
    if s.len() != 0 {
        lemma_esc_no_sep(s.skip(1));
        assert forall|i: int| 0 <= i < esc(s).len() implies (#[trigger] esc(s)[i]) != SEP by {
            if i < esc_char(s[0]).len() {
                assert(esc(s)[i] == esc_char(s[0])[i]);
            } else {
                assert(esc(s)[i] == esc(s.skip(1))[i - esc_char(s[0]).len()]);
            }
        }
    }
}

/// An escaped component is empty exactly when the component is.
pub proof fn lemma_esc_len(s: Seq<char>)
    ensures
        esc(s).len() >= s.len(),
        (esc(s).len() == 0) == (s.len() == 0),
    decreases s.len(),
{
    if s.len() != 0 {
        lemma_esc_len(s.skip(1));
    }
}

/// Escaping distributes over concatenation.
pub proof fn lemma_esc_append(a: Seq<char>, b: Seq<char>)
    ensures
        esc(a + b) == esc(a) + esc(b),
    decreases a.len(),
{
    if a.len() == 0 {
        assert(a + b =~= b);
        assert(esc(a) + esc(b) =~= esc(b));
    } else {
        assert((a + b).skip(1) =~= a.skip(1) + b);
        lemma_esc_append(a.skip(1), b);
        assert((a + b)[0] == a[0]);
        assert(esc(a + b) =~= esc(a) + esc(b)) by {
            assert(esc(a + b) == esc_char(a[0]) + (esc(a.skip(1)) + esc(b)));
            assert(esc(a) == esc_char(a[0]) + esc(a.skip(1)));
        }
    }
}

/// Prepending a common prefix to both sides does not change their order.
pub proof fn lemma_lex_prepend(p: Seq<char>, x: Seq<char>, y: Seq<char>)
    ensures
        lex_lt(p + x, p + y) == lex_lt(x, y),
    decreases p.len(),
{
    if p.len() == 0 {
        assert(p + x =~= x);
        assert(p + y =~= y);
    } else {
        assert((p + x).len() != 0);
        assert((p + y).len() != 0);
        assert((p + x)[0] == p[0]);
        assert((p + y)[0] == p[0]);
        assert((p + x).skip(1) =~= p.skip(1) + x);
        assert((p + y).skip(1) =~= p.skip(1) + y);
        lemma_lex_prepend(p.skip(1), x, y);
    }
}

/// Two sequences that differ somewhere inside both keep their order under any
/// extension of either side.
pub proof fn lemma_lex_append_any(u: Seq<char>, v: Seq<char>, x: Seq<char>, y: Seq<char>)
    requires
        lex_lt(u, v),
        !u.is_prefix_of(v),
    ensures
        lex_lt(u + x, v + y),
    decreases u.len(),
{
    if u.len() == 0 {
        assert(u.is_prefix_of(v)) by {
            assert(v.subrange(0, 0) =~= u);
        }
    } else {
        assert(v.len() != 0);
        assert((u + x)[0] == u[0]);
        assert((v + y)[0] == v[0]);
        if u[0] == v[0] {
            assert(lex_lt(u.skip(1), v.skip(1)));
            assert(!u.skip(1).is_prefix_of(v.skip(1))) by {
                if u.skip(1).is_prefix_of(v.skip(1)) {
                    assert(u.subrange(0, u.len() as int) =~= u);
                    assert(v.subrange(0, u.len() as int) =~= u) by {
                        assert forall|i: int| 0 <= i < u.len() implies v.subrange(
                            0,
                            u.len() as int,
                        )[i] == u[i] by {
                            if i >= 1 {
                                assert(u.skip(1)[i - 1] == v.skip(1).subrange(
                                    0,
                                    u.skip(1).len() as int,
                                )[i - 1]);
                            }
                        }
                    }
                }
            }
            lemma_lex_append_any(u.skip(1), v.skip(1), x, y);
            assert((u + x).skip(1) =~= u.skip(1) + x);
            assert((v + y).skip(1) =~= v.skip(1) + y);
        }
    }
}

/// Core ordering step for composite keys: if `u` comes before `v`, and `v`
/// does not continue a prefix `u` with the separator, then `u` extended by the
/// separator (and anything after it) still comes before `v` extended by
/// anything.
pub proof fn lemma_key_extend(u: Seq<char>, v: Seq<char>, x: Seq<char>, y: Seq<char>)
    requires
        lex_lt(u, v),
        u.is_prefix_of(v) ==> v[u.len() as int] != SEP,
    ensures
        lex_lt(u + seq![SEP] + x, v + y),
{
    if u.is_prefix_of(v) {
        lemma_lex_asym(u, v);
        assert(u.len() < v.len()) by {
            if u.len() == v.len() {
                assert(u =~= v);
            }
        }
        let i = u.len() as int;
        let uu = u + seq![SEP] + x;
        let vv = v + y;
        assert(uu.subrange(0, i) =~= vv.subrange(0, i)) by {
            assert forall|j: int| 0 <= j < i implies uu[j] == vv[j] by {
                assert(uu[j] == u[j]);
                assert(vv[j] == v[j]);
                assert(v.subrange(0, u.len() as int)[j] == u[j]);
            }
        }
        assert(uu[i] == SEP);
        assert(vv[i] == v[i]);
        assert((uu[i] as u32) < (vv[i] as u32)) by {
            assert(SEP as u32 == 0) by {
                vstd::utf8::char_u32_cast(SEP, SEP as u32);
                if SEP as u32 != 0 {
                    lemma_char_inj(SEP, SEP);
                }
                assert('\u{0}' as u32 == 0);
            }
            if vv[i] as u32 == 0 {
                lemma_char_inj(vv[i], SEP);
            }
        }
        lemma_lex_from_prefix(uu, vv, i);
    } else {
        assert(u + seq![SEP] + x =~= u + (seq![SEP] + x));
        lemma_lex_append_any(u, v, seq![SEP] + x, y);
    }
}

/// Escaping a single character preserves strict character order.
proof fn lemma_esc_char_mono(c: char, d: char, cs: Seq<char>, ds: Seq<char>)
    requires
        (c as u32) < (d as u32),
    ensures
        lex_lt(esc_char(c) + cs, esc_char(d) + ds),
{
    lemma_char_inj_facts(c, d);
    let u = esc_char(c) + cs;
    let v = esc_char(d) + ds;
    if c == '\u{0}' && d == '\u{1}' {
        assert(u[0] == '\u{1}' && v[0] == '\u{1}');
        assert(u[1] == '\u{1}' && v[1] == '\u{2}');
        assert(u.subrange(0, 1) =~= v.subrange(0, 1));
        lemma_lex_from_prefix(u, v, 1);
    } else {
        assert(u[0] == esc_char(c)[0]);
        assert(v[0] == esc_char(d)[0]);
        assert((u[0] as u32) < (v[0] as u32));
        assert(u.subrange(0, 0) =~= v.subrange(0, 0));
        lemma_lex_from_prefix(u, v, 0);
    }
}

/// Scalar-value facts used when comparing possibly-escaped characters.
proof fn lemma_char_inj_facts(c: char, d: char)
    ensures
        c as u32 == d as u32 ==> c == d,
        '\u{0}' as u32 == 0,
        '\u{1}' as u32 == 1,
        '\u{2}' as u32 == 2,
        c != '\u{0}' ==> c as u32 != 0,
        c != '\u{1}' ==> c as u32 != 1,
        d != '\u{0}' ==> d as u32 != 0,
        d != '\u{1}' ==> d as u32 != 1,
{
    vstd::utf8::char_u32_cast(c, c as u32);
    vstd::utf8::char_u32_cast(d, d as u32);
    vstd::utf8::char_u32_cast('\u{0}', '\u{0}' as u32);
    vstd::utf8::char_u32_cast('\u{1}', '\u{1}' as u32);
    vstd::utf8::char_u32_cast('\u{2}', '\u{2}' as u32);
}

/// Escaping whole components preserves their order.
pub proof fn lemma_esc_mono(a: Seq<char>, b: Seq<char>)
    requires
        lex_lt(a, b),
    ensures
        lex_lt(esc(a), esc(b)),
    decreases a.len(),
{
    if a.len() == 0 {
        lemma_esc_len(b);
    } else {
        assert(b.len() != 0);
        lemma_char_inj_facts(a[0], b[0]);
        if (a[0] as u32) < (b[0] as u32) {
            lemma_esc_char_mono(a[0], b[0], esc(a.skip(1)), esc(b.skip(1)));
        } else {
            assert(a[0] == b[0]);
            lemma_esc_mono(a.skip(1), b.skip(1));
            lemma_lex_prepend(esc_char(a[0]), esc(a.skip(1)), esc(b.skip(1)));
        }
    }
}

/// Escaping preserves and reflects both order and equality.
pub proof fn lemma_esc_order(a: Seq<char>, b: Seq<char>)
    ensures
        lex_lt(esc(a), esc(b)) == lex_lt(a, b),
        (esc(a) == esc(b)) == (a == b),
{
    lemma_lex_total(a, b);
    if lex_lt(a, b) {
        lemma_esc_mono(a, b);
        lemma_lex_asym(esc(a), esc(b));
    } else if lex_lt(b, a) {
        lemma_esc_mono(b, a);
        lemma_lex_asym(esc(b), esc(a));
        lemma_lex_irrefl(esc(a));
    } else {
        lemma_lex_irrefl(a);
        lemma_lex_irrefl(esc(a));
    }
}

/// Escaping one character at the end of a component extends its escaped form.
proof fn lemma_esc_snoc(s: Seq<char>, i: int)
    requires
        0 <= i < s.len(),
    ensures
        esc(s.take(i + 1)) == esc(s.take(i)) + esc_char(s[i]),
{
    assert(s.take(i + 1) =~= s.take(i) + seq![s[i]]);
    lemma_esc_append(s.take(i), seq![s[i]]);
    assert(esc(seq![s[i]]) =~= esc_char(s[i])) by {
        assert(seq![s[i]].len() == 1);
        assert(seq![s[i]][0] == s[i]);
        assert(seq![s[i]].skip(1) =~= Seq::<char>::empty());
        assert(esc(seq![s[i]]) == esc_char(s[i]) + esc(Seq::<char>::empty()));
        assert(esc(Seq::<char>::empty()) =~= Seq::<char>::empty());
    }
}

/// Escaped form of one component, built character by character.
pub fn escape_component(s: &str) -> (r: String)
    ensures
        r@ == esc(s@),
{
    let n: usize = s.unicode_len();
    let mut out = String::new();
    let mut i: usize = 0;
    proof {
        assert(s@.take(0) =~= Seq::<char>::empty());
    }
    while i < n
        invariant
            i <= n,
            n == s@.len(),
            out@ == esc(s@.take(i as int)),
        decreases n - i,
    {
        let c = s.get_char(i);
        proof {
            lemma_esc_snoc(s@, i as int);
            reveal_strlit("\u{1}\u{1}");
            reveal_strlit("\u{1}\u{2}");
        }
        if c == '\u{0}' {
            out.append("\u{1}\u{1}");
            proof {
                assert("\u{1}\u{1}"@ =~= esc_char(c));
            }
        } else if c == '\u{1}' {
            out.append("\u{1}\u{2}");
            proof {
                assert("\u{1}\u{2}"@ =~= esc_char(c));
            }
        } else {
            let piece = s.substring_char(i, i + 1);
            proof {
                assert(piece@ =~= esc_char(c));
            }
            out.append(piece);
        }
        i = i + 1;
    }
    proof {
        assert(s@.take(n as int) =~= s@);
    }
    out
}

/// Storage key of a subtopic, as stored in the subtopic table.
pub fn subtopic_store_key(topic: &str, sub: &str) -> (r: String)
    ensures
        r@ == subtopic_key_view(topic@, sub@),
{
    let mut r = escape_component(topic);
    let esub = escape_component(sub);
    proof {
        reveal_strlit("\u{0}");
    }
    r.append("\u{0}");
    r.append(esub.as_str());
    proof {
        assert("\u{0}"@ =~= seq![SEP]);
        assert(r@ =~= subtopic_key_view(topic@, sub@));
    }
    r
}

/// Storage key of a note, as stored in the note table.
pub fn note_store_key(topic: &str, sub: &str, name: &str) -> (r: String)
    ensures
        r@ == note_key_view(topic@, sub@, name@),
{
    let mut r = subtopic_store_key(topic, sub);
    let ename = escape_component(name);
    proof {
        reveal_strlit("\u{0}");
    }
    r.append("\u{0}");
    r.append(ename.as_str());
    proof {
        assert("\u{0}"@ =~= seq![SEP]);
        assert(r@ =~= note_key_view(topic@, sub@, name@));
    }
    r
}

/// Topic-major order on subtopic tuples.
pub open spec fn pair_lt(t1: Seq<char>, s1: Seq<char>, t2: Seq<char>, s2: Seq<char>) -> bool {
    lex_lt(t1, t2) || (t1 == t2 && lex_lt(s1, s2))
}

/// Topic-major order on note tuples.
pub open spec fn triple_lt(
    t1: Seq<char>,
    s1: Seq<char>,
    n1: Seq<char>,
    t2: Seq<char>,
    s2: Seq<char>,
    n2: Seq<char>,
) -> bool {
    lex_lt(t1, t2) || (t1 == t2 && (lex_lt(s1, s2) || (s1 == s2 && lex_lt(n1, n2))))
}

/// The separator appears in a subtopic key exactly once, between the
/// components.
proof fn lemma_subtopic_key_sep_at(t: Seq<char>, s: Seq<char>, j: int)
    requires
        0 <= j < subtopic_key_view(t, s).len(),
        subtopic_key_view(t, s)[j] == SEP,
    ensures
        j == esc(t).len(),
{
    lemma_esc_no_sep(t);
    lemma_esc_no_sep(s);
    let k = subtopic_key_view(t, s);
    if j < esc(t).len() {
        assert(k[j] == esc(t)[j]);
    } else if j > esc(t).len() {
        assert(k[j] == esc(s)[j - esc(t).len() - 1]);
    }
}

/// A smaller subtopic tuple yields a smaller subtopic key.
proof fn lemma_subtopic_key_lt(t1: Seq<char>, s1: Seq<char>, t2: Seq<char>, s2: Seq<char>)
    requires
        pair_lt(t1, s1, t2, s2),
    ensures
        lex_lt(subtopic_key_view(t1, s1), subtopic_key_view(t2, s2)),
{
    let k1 = subtopic_key_view(t1, s1);
    let k2 = subtopic_key_view(t2, s2);
    lemma_lex_irrefl(t1);
    if t1 == t2 {
        lemma_esc_mono(s1, s2);
        lemma_lex_prepend(esc(t1) + seq![SEP], esc(s1), esc(s2));
    } else {
        lemma_esc_mono(t1, t2);
        if esc(t1).is_prefix_of(esc(t2)) {
            lemma_esc_no_sep(t2);
            assert(esc(t1).len() <= esc(t2).len());
            lemma_lex_asym(esc(t1), esc(t2));
            assert(esc(t1).len() < esc(t2).len()) by {
                if esc(t1).len() == esc(t2).len() {
                    assert(esc(t1) =~= esc(t2));
                }
            }
            assert(esc(t2)[esc(t1).len() as int] != SEP);
        }
        lemma_key_extend(esc(t1), esc(t2), esc(s1), seq![SEP] + esc(s2));
        assert(esc(t1) + seq![SEP] + esc(s1) =~= k1);
        assert(esc(t2) + (seq![SEP] + esc(s2)) =~= k2);
    }
}

/// Subtopic keys compare exactly as the tuples do, and are equal exactly when
/// the tuples are: the encoding is an order-preserving injection.
pub proof fn lemma_subtopic_key_order(t1: Seq<char>, s1: Seq<char>, t2: Seq<char>, s2: Seq<char>)
    ensures
        lex_lt(subtopic_key_view(t1, s1), subtopic_key_view(t2, s2)) == pair_lt(t1, s1, t2, s2),
        (subtopic_key_view(t1, s1) == subtopic_key_view(t2, s2)) == (t1 == t2 && s1 == s2),
{
    let k1 = subtopic_key_view(t1, s1);
    let k2 = subtopic_key_view(t2, s2);
    lemma_lex_total(t1, t2);
    lemma_lex_total(s1, s2);
    lemma_lex_irrefl(t1);
    lemma_lex_irrefl(s1);
    if t1 == t2 && s1 == s2 {
        lemma_lex_irrefl(k1);
    } else if pair_lt(t1, s1, t2, s2) {
        lemma_subtopic_key_lt(t1, s1, t2, s2);
        lemma_lex_asym(k1, k2);
    } else {
        lemma_subtopic_key_lt(t2, s2, t1, s1);
        lemma_lex_asym(k2, k1);
        lemma_lex_irrefl(k1);
    }
}

/// A smaller note tuple yields a smaller note key.
proof fn lemma_note_key_lt(
    t1: Seq<char>,
    s1: Seq<char>,
    n1: Seq<char>,
    t2: Seq<char>,
    s2: Seq<char>,
    n2: Seq<char>,
)
    requires
        triple_lt(t1, s1, n1, t2, s2, n2),
    ensures
        lex_lt(note_key_view(t1, s1, n1), note_key_view(t2, s2, n2)),
{
    let p1 = subtopic_key_view(t1, s1);
    let p2 = subtopic_key_view(t2, s2);
    let k1 = note_key_view(t1, s1, n1);
    let k2 = note_key_view(t2, s2, n2);
    assert(k1 =~= p1 + seq![SEP] + esc(n1));
    assert(k2 =~= p2 + seq![SEP] + esc(n2));
    lemma_lex_irrefl(t1);
    lemma_lex_irrefl(s1);
    if t1 == t2 && s1 == s2 {
        lemma_esc_mono(n1, n2);
        lemma_lex_prepend(p1 + seq![SEP], esc(n1), esc(n2));
        assert((p1 + seq![SEP]) + esc(n1) =~= k1);
        assert((p1 + seq![SEP]) + esc(n2) =~= k2);
    } else {
        lemma_subtopic_key_lt(t1, s1, t2, s2);
        if p1.is_prefix_of(p2) {
            lemma_lex_asym(p1, p2);
            assert(p1.len() < p2.len()) by {
                if p1.len() == p2.len() {
                    assert(p1 =~= p2);
                }
            }
            if p2[p1.len() as int] == SEP {
                lemma_subtopic_key_sep_at(t2, s2, p1.len() as int);
                let i = esc(t1).len() as int;
                assert(p1[i] == SEP);
                assert(p2[i] == p1[i]) by {
                    assert(p2.subrange(0, p1.len() as int)[i] == p1[i]);
                }
                lemma_subtopic_key_sep_at(t2, s2, i);
                assert(i < p1.len());
            }
            assert(p2[p1.len() as int] != SEP);
        }
        lemma_key_extend(p1, p2, esc(n1), seq![SEP] + esc(n2));
        assert(p2 + (seq![SEP] + esc(n2)) =~= k2);
    }
}

/// Two separator-free components followed by a separator decompose a string
/// uniquely: if one such framing is a prefix of another, the components in
/// front of the separators agree.
proof fn lemma_sep_free_prefix(a: Seq<char>, b: Seq<char>, x: Seq<char>, y: Seq<char>)
    requires
        forall|i: int| 0 <= i < a.len() ==> (#[trigger] a[i]) != SEP,
        forall|i: int| 0 <= i < b.len() ==> (#[trigger] b[i]) != SEP,
        (a + seq![SEP] + x).is_prefix_of(b + seq![SEP] + y),
    ensures
        a == b,
        x.is_prefix_of(y),
{
    let u = a + seq![SEP] + x;
    let v = b + seq![SEP] + y;
    assert(forall|j: int| 0 <= j < u.len() ==> u[j] == #[trigger] v.subrange(0, u.len() as int)[j]);
    assert(forall|j: int| 0 <= j < u.len() ==> #[trigger] u[j] == v[j]);
    if a.len() < b.len() {
        assert(u[a.len() as int] == SEP);
        assert(v[a.len() as int] == b[a.len() as int]);
        assert(false);
    }
    if a.len() > b.len() {
        assert(u[b.len() as int] == a[b.len() as int]);
        assert(v[b.len() as int] == SEP);
        assert(false);
    }
    assert(a =~= b) by {
        assert(forall|j: int| 0 <= j < a.len() ==> u[j] == #[trigger] a[j]);
        assert(forall|j: int| 0 <= j < b.len() ==> v[j] == #[trigger] b[j]);
    }
    assert(x.is_prefix_of(y)) by {
        assert(x.len() <= y.len());
        assert forall|j: int| 0 <= j < x.len() implies y.subrange(0, x.len() as int)[j] == x[j] by {
            assert(u[a.len() + 1 + j] == x[j]);
            assert(v[b.len() + 1 + j] == y[j]);
        }
        assert(y.subrange(0, x.len() as int) =~= x);
    }
}

/// The prefix test resolves the scope exactly: a note key starts with
/// `note_prefix_view(topic, sub)` precisely when the note lives under that
/// `(topic, sub_topic)` scope. This is what lets a range scan bounded by the
/// prefix enumerate a scope without touching any other.
pub proof fn lemma_note_prefix_scopes(
    t: Seq<char>,
    s: Seq<char>,
    t2: Seq<char>,
    s2: Seq<char>,
    n2: Seq<char>,
)
    ensures
        note_prefix_view(t, s).is_prefix_of(note_key_view(t2, s2, n2)) == (t == t2 && s == s2),
{
    let p = note_prefix_view(t, s);
    let k = note_key_view(t2, s2, n2);
    if p.is_prefix_of(k) {
        lemma_esc_no_sep(t);
        lemma_esc_no_sep(s);
        lemma_esc_no_sep(t2);
        lemma_esc_no_sep(s2);
        assert(p =~= esc(t) + seq![SEP] + (esc(s) + seq![SEP]));
        assert(k =~= esc(t2) + seq![SEP] + (esc(s2) + seq![SEP] + esc(n2)));
        lemma_sep_free_prefix(esc(t), esc(t2), esc(s) + seq![SEP], esc(s2) + seq![SEP] + esc(n2));
        lemma_sep_free_prefix(esc(s), esc(s2), Seq::<char>::empty(), esc(n2));
        lemma_esc_order(t, t2);
        lemma_esc_order(s, s2);
    }
    if t == t2 && s == s2 {
        assert(k.subrange(0, p.len() as int) =~= p);
    }
}

/// Note keys compare exactly as the tuples do, and are equal exactly when the
/// tuples are: the encoding is an order-preserving injection.
pub proof fn lemma_note_key_order(
    t1: Seq<char>,
    s1: Seq<char>,
    n1: Seq<char>,
    t2: Seq<char>,
    s2: Seq<char>,
    n2: Seq<char>,
)
    ensures
        lex_lt(note_key_view(t1, s1, n1), note_key_view(t2, s2, n2)) == triple_lt(
            t1,
            s1,
            n1,
            t2,
            s2,
            n2,
        ),
        (note_key_view(t1, s1, n1) == note_key_view(t2, s2, n2)) == (t1 == t2 && s1 == s2 && n1
            == n2),
{
    let k1 = note_key_view(t1, s1, n1);
    let k2 = note_key_view(t2, s2, n2);
    lemma_lex_total(t1, t2);
    lemma_lex_total(s1, s2);
    lemma_lex_total(n1, n2);
    lemma_lex_irrefl(t1);
    lemma_lex_irrefl(s1);
    lemma_lex_irrefl(n1);
    if t1 == t2 && s1 == s2 && n1 == n2 {
        lemma_lex_irrefl(k1);
    } else if triple_lt(t1, s1, n1, t2, s2, n2) {
        lemma_note_key_lt(t1, s1, n1, t2, s2, n2);
        lemma_lex_asym(k1, k2);
    } else {
        lemma_note_key_lt(t2, s2, n2, t1, s1, n1);
        lemma_lex_asym(k2, k1);
        lemma_lex_irrefl(k1);
    }
}

} // verus!
