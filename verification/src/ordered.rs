//! Ascending tables keyed by text, and the stable order of a ranking.

use crate::text::lemma_precedes_irreflexive;
use crate::text::lemma_precedes_total;
use crate::text::lemma_precedes_transitive;
use crate::text::less;
use crate::text::precedes;
use crate::text::same;
use vstd::prelude::*;

verus! {

/// Whether each text precedes all that follow it.
pub open spec fn is_ascending(s: Seq<Seq<char>>) -> bool {
    forall|i: int, j: int| 0 <= i < j < s.len() ==> precedes(s[i], s[j])
}

/// Whether `s` lists the members of `set` in ascending order, each once.
pub open spec fn lists(s: Seq<Seq<char>>, set: Set<Seq<char>>) -> bool {
    &&& is_ascending(s)
    &&& forall|x: Seq<char>| #[trigger] s.contains(x) <==> set.contains(x)
}

/// The members of `set` in ascending order, each once.
pub open spec fn listed(set: Set<Seq<char>>) -> Seq<Seq<char>> {
    choose|s: Seq<Seq<char>>| lists(s, set)
}

/// A set has one ascending listing.
pub proof fn lemma_listed(s: Seq<Seq<char>>, set: Set<Seq<char>>)
    requires
        lists(s, set),
    ensures
        listed(set) == s,
{
    lemma_listing_unique(s, listed(set), set);
}

proof fn lemma_listing_unique(a: Seq<Seq<char>>, b: Seq<Seq<char>>, set: Set<Seq<char>>)
    requires
        lists(a, set),
        lists(b, set),
    ensures
        a == b,
    decreases a.len(),
{
    if a.len() == 0 {
        if b.len() > 0 {
            assert(b.contains(b[0]));
            assert(a.contains(b[0]));
        }
        assert(a =~= b);
    } else {
        let top = a.last();
        assert(a.contains(top));
        assert(b.contains(top));
        let k = choose|k: int| 0 <= k < b.len() && b[k] == top;
        if k < b.len() - 1 {
            assert(precedes(top, b.last()));
            assert(b.contains(b.last()));
            assert(a.contains(b.last()));
            let m = choose|m: int| 0 <= m < a.len() && a[m] == b.last();
            if m < a.len() - 1 {
                assert(precedes(b.last(), top));
                lemma_precedes_transitive(top, b.last(), top);
            }
            lemma_precedes_irreflexive(top);
        }
        let rest = set.remove(top);
        lemma_drop_top(a, set);
        lemma_drop_top(b, set);
        lemma_listing_unique(a.drop_last(), b.drop_last(), rest);
        assert(a =~= a.drop_last().push(top));
        assert(b =~= b.drop_last().push(top));
    }
}

proof fn lemma_drop_top(s: Seq<Seq<char>>, set: Set<Seq<char>>)
    requires
        s.len() > 0,
        lists(s, set),
    ensures
        lists(s.drop_last(), set.remove(s.last())),
{
    let d = s.drop_last();
    assert forall|x: Seq<char>| #[trigger] d.contains(x) <==> set.remove(s.last()).contains(x) by {
        if d.contains(x) {
            let k = choose|k: int| 0 <= k < d.len() && d[k] == x;
            assert(s[k] == x);
            assert(s.contains(x));
            assert(precedes(x, s.last()));
            lemma_precedes_irreflexive(x);
        }
        if set.remove(s.last()).contains(x) {
            assert(s.contains(x));
            let k = choose|k: int| 0 <= k < s.len() && s[k] == x;
            assert(d[k] == x);
        }
    }
}

/// One more member joins an ascending listing.
proof fn lemma_insert_listing(s: Seq<Seq<char>>, set: Set<Seq<char>>, x: Seq<char>) -> (r: Seq<
    Seq<char>,
>)
    requires
        lists(s, set),
    ensures
        lists(r, set.insert(x)),
    decreases s.len(),
{
    let wider = set.insert(x);
    if s.len() == 0 {
        let r = seq![x];
        assert(r[0] == x);
        assert forall|y: Seq<char>| #[trigger] r.contains(y) <==> wider.contains(y) by {
            assert(s.contains(y) <==> set.contains(y));
        }
        r
    } else {
        let top = s.last();
        assert(s.contains(top)) by {
            assert(s[s.len() - 1] == top);
        }
        lemma_precedes_total(top, x);
        if top == x {
            assert(wider =~= set);
            s
        } else if precedes(top, x) {
            let r = s.push(x);
            assert forall|i: int, j: int| 0 <= i < j < r.len() implies precedes(r[i], r[j]) by {
                if j == s.len() && i < s.len() - 1 {
                    lemma_precedes_transitive(s[i], top, x);
                }
            }
            assert(r =~= s.insert(s.len() as int, x));
            lemma_insert_contains(s, s.len() as int, x);
            assert forall|y: Seq<char>| #[trigger] r.contains(y) <==> wider.contains(y) by {
                assert(s.contains(y) <==> set.contains(y));
            }
            r
        } else {
            lemma_drop_top(s, set);
            let rest = lemma_insert_listing(s.drop_last(), set.remove(top), x);
            let r = rest.push(top);
            assert forall|i: int, j: int| 0 <= i < j < r.len() implies precedes(r[i], r[j]) by {
                if j == rest.len() {
                    assert(rest.contains(rest[i]));
                    assert(set.remove(top).insert(x).contains(rest[i]));
                    if rest[i] != x {
                        assert(s.contains(rest[i]));
                        let k = choose|k: int| 0 <= k < s.len() && s[k] == rest[i];
                        assert(k < s.len() - 1);
                    }
                }
            }
            assert(r =~= rest.insert(rest.len() as int, top));
            lemma_insert_contains(rest, rest.len() as int, top);
            assert forall|y: Seq<char>| #[trigger] r.contains(y) <==> wider.contains(y) by {
                assert(rest.contains(y) <==> set.remove(top).insert(x).contains(y));
            }
            r
        }
    }
}

/// A finite set has an ascending listing.
pub proof fn lemma_listable(set: Set<Seq<char>>)
    requires
        set.finite(),
    ensures
        lists(listed(set), set),
    decreases set.len(),
{
    if set.len() == 0 {
        let s = Seq::<Seq<char>>::empty();
        assert(set =~= Set::empty());
        assert(lists(s, set));
        lemma_listed(s, set);
    } else {
        let x = set.choose();
        lemma_listable(set.remove(x));
        let s = lemma_insert_listing(listed(set.remove(x)), set.remove(x), x);
        assert(set.remove(x).insert(x) =~= set);
        lemma_listed(s, set);
    }
}

/// A row of a table that is kept in the order of its key.
pub trait Keyed: Sized {
    /// The key of the row.
    spec fn key_spec(&self) -> Seq<char>;

    /// The key of the row.
    fn key(&self) -> (r: &str)
        ensures
            r@ == self.key_spec(),
    ;
}

impl Keyed for String {
    open spec fn key_spec(&self) -> Seq<char> {
        self@
    }

    fn key(&self) -> (r: &str) {
        self.as_str()
    }
}

/// The keys of the rows, in order.
pub open spec fn keys<T: Keyed>(rows: Seq<T>) -> Seq<Seq<char>> {
    rows.map_values(|row: T| row.key_spec())
}

/// Where a key stands in an ascending table.
pub struct Slot {
    /// Whether a row has the key.
    pub found: bool,
    /// The index of that row, or where a row with the key belongs.
    pub index: usize,
}

/// Finds the row with the given key, or the place for it.
pub fn locate<T: Keyed>(rows: &Vec<T>, key: &str) -> (r: Slot)
    requires
        is_ascending(keys(rows@)),
    ensures
        r.found == keys(rows@).contains(key@),
        r.found ==> r.index < rows@.len() && rows@[r.index as int].key_spec() == key@,
        !r.found ==> r.index <= rows@.len() && is_ascending(
            keys(rows@).insert(r.index as int, key@),
        ),
{
    let ghost names = keys(rows@);
    let mut low: usize = 0;
    let mut high: usize = rows.len();
    while low < high
        invariant
            names == keys(rows@),
            is_ascending(names),
            0 <= low <= high <= rows@.len(),
            forall|i: int| 0 <= i < low ==> precedes(#[trigger] names[i], key@),
            forall|i: int| high <= i < names.len() ==> precedes(key@, #[trigger] names[i]),
        decreases high - low,
    {
        let middle: usize = low + (high - low) / 2;
        let candidate = rows[middle].key();
        assert(candidate@ == names[middle as int]);
        if same(candidate, key) {
            assert(names[middle as int] == key@);
            return Slot { found: true, index: middle };
        }
        if less(candidate, key) {
            assert forall|i: int| 0 <= i < middle + 1 implies precedes(
                #[trigger] names[i],
                key@,
            ) by {
                if i < middle {
                    lemma_precedes_transitive(names[i], candidate@, key@);
                }
            }
            low = middle + 1;
        } else {
            proof {
                lemma_precedes_total(candidate@, key@);
            }
            assert forall|i: int| middle <= i < names.len() implies precedes(
                key@,
                #[trigger] names[i],
            ) by {
                if i > middle {
                    lemma_precedes_transitive(key@, candidate@, names[i]);
                }
            }
            high = middle;
        }
    }
    proof {
        if names.contains(key@) {
            let k = choose|k: int| 0 <= k < names.len() && names[k] == key@;
            lemma_precedes_irreflexive(key@);
            assert(precedes(names[k], key@) || precedes(key@, names[k]));
        }
        let wider = names.insert(low as int, key@);
        assert forall|i: int, j: int| 0 <= i < j < wider.len() implies precedes(
            wider[i],
            wider[j],
        ) by {
            let a = if i < low {
                i
            } else {
                i - 1
            };
            let b = if j < low {
                j
            } else {
                j - 1
            };
            if i == low {
                assert(precedes(key@, names[b]));
            } else if j == low {
                assert(precedes(names[a], key@));
            } else {
                assert(precedes(names[a], names[b]));
            }
        }
    }
    Slot { found: false, index: low }
}

/// Adds a text to an ascending list that does not hold it yet.
pub fn insert_text(rows: &mut Vec<String>, text: &String)
    requires
        is_ascending(keys(old(rows)@)),
    ensures
        is_ascending(keys(final(rows)@)),
        forall|x: Seq<char>| #[trigger] keys(final(rows)@).contains(x) <==> (keys(
            old(rows)@,
        ).contains(x) || x == text@),
{
    let slot = locate(rows, text.as_str());
    let ghost before = keys(rows@);
    if !slot.found {
        rows.insert(slot.index, text.clone());
        proof {
            assert(keys(rows@) =~= before.insert(slot.index as int, text@));
            lemma_insert_contains(before, slot.index as int, text@);
        }
    }
}

/// What a list holds after an insertion.
pub proof fn lemma_insert_contains<T>(s: Seq<T>, at: int, x: T)
    requires
        0 <= at <= s.len(),
    ensures
        forall|y: T| #[trigger] s.insert(at, x).contains(y) <==> (s.contains(y) || y == x),
{
    let w = s.insert(at, x);
    assert forall|y: T| #[trigger] w.contains(y) <==> (s.contains(y) || y == x) by {
        if w.contains(y) {
            let k = choose|k: int| 0 <= k < w.len() && w[k] == y;
            if k < at {
                assert(s[k] == y);
            } else if k > at {
                assert(s[k - 1] == y);
            }
        }
        if s.contains(y) {
            let k = choose|k: int| 0 <= k < s.len() && s[k] == y;
            if k < at {
                assert(w[k] == y);
            } else {
                assert(w[k + 1] == y);
            }
        }
        assert(w[at] == x);
    }
}

/// Puts `x` into a sorted sequence, behind every item it is not less than.
pub open spec fn insert_sorted<T>(s: Seq<T>, x: T, before: spec_fn(T, T) -> bool) -> Seq<T>
    decreases s.len(),
{
    if s.len() == 0 {
        seq![x]
    } else if before(x, s.last()) {
        insert_sorted(s.drop_last(), x, before).push(s.last())
    } else {
        s.push(x)
    }
}

/// The items in the order of `before`, equal items staying in their order.
pub open spec fn stable_sorted<T>(s: Seq<T>, before: spec_fn(T, T) -> bool) -> Seq<T>
    decreases s.len(),
{
    if s.len() == 0 {
        Seq::empty()
    } else {
        insert_sorted(stable_sorted(s.drop_last(), before), s.last(), before)
    }
}

/// Inserting by position.
pub proof fn lemma_insert_sorted<T>(s: Seq<T>, x: T, before: spec_fn(T, T) -> bool, at: int)
    requires
        0 <= at <= s.len(),
        forall|i: int| at <= i < s.len() ==> before(x, #[trigger] s[i]),
        at > 0 ==> !before(x, s[at - 1]),
    ensures
        insert_sorted(s, x, before) == s.insert(at, x),
    decreases s.len(),
{
    if s.len() == 0 {
        assert(seq![x] =~= s.insert(at, x));
    } else if at == s.len() {
        assert(s.push(x) =~= s.insert(at, x));
    } else {
        assert(before(x, s[s.len() - 1]));
        lemma_insert_sorted(s.drop_last(), x, before, at);
        assert(s.drop_last().insert(at, x).push(s.last()) =~= s.insert(at, x));
    }
}

/// Whether `before` is a strict weak order on the items that are `ok`.
pub open spec fn is_order<T>(before: spec_fn(T, T) -> bool, ok: spec_fn(T) -> bool) -> bool {
    &&& forall|a: T| ok(a) ==> !#[trigger] before(a, a)
    &&& forall|a: T, b: T, c: T|
        #![trigger before(a, b), before(b, c)]
        ok(a) && ok(b) && ok(c) && before(a, b) && before(b, c) ==> before(a, c)
    &&& forall|a: T, b: T, c: T|
        #![trigger before(a, c), before(b, c)]
        #![trigger before(a, c), before(a, b)]
        ok(a) && ok(b) && ok(c) && before(a, c) ==> before(a, b) || before(b, c)
}

/// Whether every item is `ok`.
pub open spec fn all_ok<T>(s: Seq<T>, ok: spec_fn(T) -> bool) -> bool {
    forall|i: int| 0 <= i < s.len() ==> ok(#[trigger] s[i])
}

/// Whether no item stands before one it should follow.
pub open spec fn in_order<T>(s: Seq<T>, before: spec_fn(T, T) -> bool) -> bool {
    forall|i: int, j: int| 0 <= i < j < s.len() ==> !before(s[j], s[i])
}

/// Sorting keeps each item, and puts the items in order.
pub proof fn lemma_stable_sorted<T>(
    s: Seq<T>,
    before: spec_fn(T, T) -> bool,
    ok: spec_fn(T) -> bool,
)
    requires
        is_order(before, ok),
        all_ok(s, ok),
    ensures
        in_order(stable_sorted(s, before), before),
        all_ok(stable_sorted(s, before), ok),
        stable_sorted(s, before).to_multiset() == s.to_multiset(),
        stable_sorted(s, before).len() == s.len(),
        forall|x: T| #[trigger] stable_sorted(s, before).contains(x) <==> s.contains(x),
    decreases s.len(),
{
    broadcast use vstd::seq_lib::group_to_multiset_ensures;

    if s.len() > 0 {
        let front = stable_sorted(s.drop_last(), before);
        assert(all_ok(s.drop_last(), ok)) by {
            assert forall|i: int| 0 <= i < s.len() - 1 implies ok(#[trigger] s.drop_last()[i]) by {
                assert(ok(s[i]));
            }
        }
        assert(ok(s[s.len() - 1]));
        lemma_stable_sorted(s.drop_last(), before, ok);
        lemma_insert_in_order(front, s.last(), before, ok);
        assert(s =~= s.drop_last().push(s.last()));
        assert forall|x: T| #[trigger] stable_sorted(s, before).contains(x) <==> s.contains(x) by {
            if s.contains(x) {
                let k = choose|k: int| 0 <= k < s.len() && s[k] == x;
                if k < s.len() - 1 {
                    assert(s.drop_last()[k] == x);
                }
            }
            if s.drop_last().contains(x) {
                let k = choose|k: int| 0 <= k < s.len() - 1 && s.drop_last()[k] == x;
                assert(s[k] == x);
            }
            assert(s[s.len() - 1] == s.last());
        }
    }
}

proof fn lemma_insert_in_order<T>(
    s: Seq<T>,
    x: T,
    before: spec_fn(T, T) -> bool,
    ok: spec_fn(T) -> bool,
)
    requires
        is_order(before, ok),
        in_order(s, before),
        all_ok(s, ok),
        ok(x),
    ensures
        in_order(insert_sorted(s, x, before), before),
        all_ok(insert_sorted(s, x, before), ok),
        insert_sorted(s, x, before).to_multiset() == s.to_multiset().insert(x),
        insert_sorted(s, x, before).len() == s.len() + 1,
        forall|y: T| #[trigger]
            insert_sorted(s, x, before).contains(y) <==> (s.contains(y) || y == x),
    decreases s.len(),
{
    broadcast use vstd::seq_lib::group_to_multiset_ensures;

    let at = lemma_insert_place(s, x, before);
    lemma_insert_sorted(s, x, before, at);
    lemma_insert_contains(s, at, x);
    let w = s.insert(at, x);
    assert forall|i: int| 0 <= i < w.len() implies ok(#[trigger] w[i]) by {
        if i < at {
            assert(ok(s[i]));
        } else if i > at {
            assert(ok(s[i - 1]));
        }
    }
    assert forall|i: int, j: int| 0 <= i < j < w.len() implies !before(w[j], w[i]) by {
        if i < at && j == at {
            assert(ok(s[i]));
            assert(ok(s[at - 1]));
            if before(x, s[i]) && i < at - 1 {
                assert(!before(s[at - 1], s[i]));
                assert(before(x, s[at - 1]) || before(s[at - 1], s[i]));
            }
        } else if i == at {
            assert(ok(s[j - 1]));
            assert(before(x, s[j - 1]));
            if before(s[j - 1], x) {
                assert(before(x, x));
            }
        }
    }
}

proof fn lemma_insert_place<T>(s: Seq<T>, x: T, before: spec_fn(T, T) -> bool) -> (at: int)
    ensures
        0 <= at <= s.len(),
        forall|i: int| at <= i < s.len() ==> before(x, #[trigger] s[i]),
        at > 0 ==> !before(x, s[at - 1]),
    decreases s.len(),
{
    if s.len() == 0 {
        0
    } else if before(x, s.last()) {
        let at = lemma_insert_place(s.drop_last(), x, before);
        assert forall|i: int| at <= i < s.len() implies before(x, #[trigger] s[i]) by {
            if i < s.len() - 1 {
                assert(before(x, s.drop_last()[i]));
            }
        }
        at
    } else {
        s.len() as int
    }
}

} // verus!
