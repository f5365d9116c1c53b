//! Composite keys: several texts written as one, without any two tuples of
//! texts sharing a key.

use vstd::prelude::*;

verus! {

/// A text framed so that its end is visible: each character is marked, and a
/// period ends it.
pub open spec fn framed(s: Seq<char>) -> Seq<char>
    decreases s.len(),
{
    if s.len() == 0 {
        seq!['.']
    } else {
        seq!['x', s[0]] + framed(s.drop_first())
    }
}

/// A framed text tells where it ends.
pub proof fn lemma_framed_injective(a: Seq<char>, x: Seq<char>, b: Seq<char>, y: Seq<char>)
    requires
        framed(a) + x == framed(b) + y,
    ensures
        a == b,
        x == y,
    decreases a.len(),
{
    let left = framed(a) + x;
    let right = framed(b) + y;
    if a.len() == 0 || b.len() == 0 {
        assert(left[0] == framed(a)[0]);
        assert(right[0] == framed(b)[0]);
        assert(a.len() > 0 ==> framed(a)[0] == 'x');
        assert(b.len() > 0 ==> framed(b)[0] == 'x');
        assert(a =~= b);
        assert(x =~= left.subrange(1, left.len() as int));
        assert(y =~= right.subrange(1, right.len() as int));
    } else {
        let ra = a.drop_first();
        let rb = b.drop_first();
        assert(framed(ra) + x =~= left.subrange(2, left.len() as int));
        assert(framed(rb) + y =~= right.subrange(2, right.len() as int));
        lemma_framed_injective(ra, x, rb, y);
        assert(left[1] == a[0]);
        assert(right[1] == b[0]);
        assert(a =~= seq![a[0]] + ra);
        assert(b =~= seq![b[0]] + rb);
    }
}

/// Three texts.
pub type Triple = (Seq<char>, Seq<char>, Seq<char>);

/// The key of three texts.
pub open spec fn triple_key(t: Triple) -> Seq<char> {
    framed(t.0) + (framed(t.1) + t.2)
}

/// Different texts have different keys.
pub proof fn lemma_triple_key_injective(s: Triple, t: Triple)
    requires
        triple_key(s) == triple_key(t),
    ensures
        s == t,
{
    lemma_framed_injective(s.0, framed(s.1) + s.2, t.0, framed(t.1) + t.2);
    lemma_framed_injective(s.1, s.2, t.1, t.2);
}

/// Appends the framed text.
fn push_framed(out: &mut String, s: &str)
    ensures
        final(out)@ == old(out)@ + framed(s@),
{
    let chars = crate::text::chars_of(s);
    let mut i: usize = 0;
    proof {
        assert(s@.skip(0) =~= s@);
    }
    while i < chars.len()
        invariant
            chars@ == s@,
            i <= chars.len(),
            out@ + framed(s@.skip(i as int)) == old(out)@ + framed(s@),
        decreases chars.len() - i,
    {
        let ghost rest = s@.skip(i as int);
        let ghost before = out@;
        out.push('x');
        out.push(chars[i]);
        proof {
            assert(rest.drop_first() =~= s@.skip(i + 1));
            assert(out@ + framed(s@.skip(i + 1)) =~= before + framed(rest));
        }
        i = i + 1;
    }
    proof {
        assert(s@.skip(i as int) =~= Seq::<char>::empty());
    }
    let ghost before = out@;
    out.push('.');
    assert(out@ =~= before + framed(Seq::<char>::empty()));
}

/// The key of three texts.
pub(crate) fn key_of(a: &str, b: &str, c: &str) -> (r: String)
    ensures
        r@ == triple_key((a@, b@, c@)),
{
    let mut out = String::new();
    push_framed(&mut out, a);
    push_framed(&mut out, b);
    out.append(c);
    assert(out@ =~= triple_key((a@, b@, c@)));
    out
}

/// Whether every key of the map is the key of three texts.
pub open spec fn keyed_by_triples<V>(m: Map<Seq<char>, V>) -> bool {
    forall|k: Seq<char>| #[trigger]
        m.contains_key(k) ==> exists|t: Triple| k == #[trigger] triple_key(t)
}

/// The map read by its three texts.
pub open spec fn by_triple<V>(m: Map<Seq<char>, V>) -> Map<Triple, V> {
    Map::new(|t: Triple| m.contains_key(triple_key(t)), |t: Triple| m[triple_key(t)])
}

/// An insertion, read by its three texts.
pub proof fn lemma_by_triple_insert<V>(m: Map<Seq<char>, V>, t: Triple, v: V)
    requires
        keyed_by_triples(m),
    ensures
        keyed_by_triples(m.insert(triple_key(t), v)),
        by_triple(m.insert(triple_key(t), v)) == by_triple(m).insert(t, v),
{
    let wider = m.insert(triple_key(t), v);
    assert forall|u: Triple| triple_key(u) == triple_key(t) implies u == t by {
        lemma_triple_key_injective(u, t);
    }
    assert(by_triple(wider) =~= by_triple(m).insert(t, v));
}

/// Both readings hold the same number of entries.
pub proof fn lemma_by_triple_len<V>(m: Map<Seq<char>, V>)
    requires
        keyed_by_triples(m),
        m.dom().finite(),
    ensures
        by_triple(m).dom().finite(),
        by_triple(m).len() == m.len(),
    decreases m.len(),
{
    if m.len() == 0 {
        assert(m.dom() =~= Set::empty());
        assert(by_triple(m).dom() =~= Set::empty());
    } else {
        let k = m.dom().choose();
        let t = choose|t: Triple| k == #[trigger] triple_key(t);
        let rest = m.remove(k);
        lemma_by_triple_len(rest);
        assert forall|u: Triple| triple_key(u) == triple_key(t) implies u == t by {
            lemma_triple_key_injective(u, t);
        }
        assert(by_triple(m).dom() =~= by_triple(rest).dom().insert(t));
    }
}

/// One reading is empty where the other is.
pub proof fn lemma_by_triple_empty<V>(m: Map<Seq<char>, V>)
    requires
        keyed_by_triples(m),
    ensures
        m.is_empty() <==> by_triple(m) == Map::<Triple, V>::empty(),
{
    if m.is_empty() {
        assert(by_triple(m) =~= Map::<Triple, V>::empty());
    }
    if by_triple(m) == Map::<Triple, V>::empty() {
        assert forall|k: Seq<char>| !m.contains_key(k) by {
            if m.contains_key(k) {
                let t = choose|t: Triple| k == #[trigger] triple_key(t);
                assert(by_triple(m).contains_key(t));
            }
        }
        assert(m.dom() =~= Set::empty());
    }
}

} // verus!
