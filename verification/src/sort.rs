//! Sorting by a total order on keys, as `slice::sort` arranges values whose
//! `Ord` compares those keys.

use vstd::prelude::*;
use vstd::multiset::Multiset;
use vstd::relations::*;
use vstd::seq_lib::*;

verus! {

broadcast use vstd::seq_lib::group_to_multiset_ensures, vstd::multiset::group_multiset_axioms;

/// Values ordered by a key, the key order being total.
pub trait SortKey: Sized {
    /// What the order compares.
    type Key;

    /// The key of a value.
    spec fn sort_key(&self) -> Self::Key;

    /// The order on keys.
    spec fn key_le(a: Self::Key, b: Self::Key) -> bool;

    /// Every key is at most itself.
    proof fn lemma_key_le_reflexive(a: Self::Key)
        ensures
            Self::key_le(a, a),
    ;

    /// Two keys each at most the other are equal.
    proof fn lemma_key_le_antisymmetric(a: Self::Key, b: Self::Key)
        requires
            Self::key_le(a, b),
            Self::key_le(b, a),
        ensures
            a == b,
    ;

    /// The order is transitive.
    proof fn lemma_key_le_transitive(a: Self::Key, b: Self::Key, c: Self::Key)
        requires
            Self::key_le(a, b),
            Self::key_le(b, c),
        ensures
            Self::key_le(a, c),
    ;

    /// Any two keys are comparable.
    proof fn lemma_key_le_total(a: Self::Key, b: Self::Key)
        ensures
            Self::key_le(a, b) || Self::key_le(b, a),
    ;

    /// Compare two values by their keys.
    fn key_le_exec(&self, other: &Self) -> (le: bool)
        ensures
            le == Self::key_le(self.sort_key(), other.sort_key()),
    ;
}

/// The key order as a relation.
pub open spec fn key_order<T: SortKey>() -> spec_fn(T::Key, T::Key) -> bool {
    |a: T::Key, b: T::Key| T::key_le(a, b)
}

/// The keys of a list of values.
pub open spec fn sort_keys<T: SortKey>(s: Seq<T>) -> Seq<T::Key> {
    s.map_values(|e: T| e.sort_key())
}

/// Sortedness by the key order, with the pairs written out.
pub open spec fn keys_sorted<T: SortKey>(keys: Seq<T::Key>) -> bool {
    forall|i: int, j: int| 0 <= i < j < keys.len() ==> T::key_le(#[trigger] keys[i], #[trigger] keys[j])
}

/// The key order is total, so a list has exactly one sorted arrangement of
/// its keys.
pub proof fn lemma_key_order_total<T: SortKey>()
    ensures
        total_ordering(key_order::<T>()),
{
    assert forall|a: T::Key| #[trigger] key_order::<T>()(a, a) by {
        T::lemma_key_le_reflexive(a);
    }
    assert forall|a: T::Key, b: T::Key|
        #[trigger] key_order::<T>()(a, b) && #[trigger] key_order::<T>()(b, a) implies a == b by {
        T::lemma_key_le_antisymmetric(a, b);
    }
    assert forall|a: T::Key, b: T::Key, c: T::Key|
        #[trigger] key_order::<T>()(a, b) && #[trigger] key_order::<T>()(b, c) implies key_order::<
        T,
    >()(a, c) by {
        T::lemma_key_le_transitive(a, b, c);
    }
    assert forall|a: T::Key, b: T::Key| #[trigger] key_order::<T>()(a, b) || #[trigger] key_order::<
        T,
    >()(b, a) by {
        T::lemma_key_le_total(a, b);
    }
}

/// Lists of keys holding the same keys sort to the same list.
pub proof fn lemma_sort_ignores_order<T: SortKey>(a: Seq<T::Key>, b: Seq<T::Key>)
    requires
        a.to_multiset() == b.to_multiset(),
    ensures
        a.sort_by(key_order::<T>()) == b.sort_by(key_order::<T>()),
{
    lemma_key_order_total::<T>();
    a.lemma_sort_by_ensures(key_order::<T>());
    b.lemma_sort_by_ensures(key_order::<T>());
    lemma_sorted_unique(a.sort_by(key_order::<T>()), b.sort_by(key_order::<T>()), key_order::<T>());
}

proof fn lemma_insert_sorted<T: SortKey>(s: Seq<T::Key>, j: int, k: T::Key)
    requires
        keys_sorted::<T>(s),
        0 <= j <= s.len(),
        forall|p: int| 0 <= p < j ==> T::key_le(#[trigger] s[p], k),
        j < s.len() ==> !T::key_le(s[j], k),
    ensures
        keys_sorted::<T>(s.insert(j, k)),
{
    let t = s.insert(j, k);
    if j < s.len() {
        T::lemma_key_le_total(s[j], k);
    }
    assert forall|p: int, q: int| 0 <= p < q < t.len() implies T::key_le(
        #[trigger] t[p],
        #[trigger] t[q],
    ) by {
        if q < j {
        } else if q == j {
        } else if p < j {
            assert(t[q] == s[q - 1]);
            assert(T::key_le(s[p], s[q - 1]));
        } else if p == j {
            assert(t[q] == s[q - 1]);
            if q - 1 > j {
                assert(T::key_le(s[j], s[q - 1]));
                T::lemma_key_le_transitive(k, s[j], s[q - 1]);
            }
        } else {
            assert(t[p] == s[p - 1] && t[q] == s[q - 1]);
        }
    }
}

/// Arrange values by their keys: insertion sort, each value placed after
/// every value whose key is at most its own.
pub fn sort_by_key<T: SortKey>(values: Vec<T>) -> (sorted: Vec<T>)
    ensures
        sort_keys(sorted@) == sort_keys(values@).sort_by(key_order::<T>()),
{
    let ghost all = sort_keys(values@);
    let mut rest = values;
    let mut out: Vec<T> = Vec::new();
    assert(sort_keys(out@).to_multiset() =~= Multiset::<T::Key>::empty());
    while rest.len() > 0
        invariant
            keys_sorted::<T>(sort_keys(out@)),
            sort_keys(out@).to_multiset().add(sort_keys(rest@).to_multiset()) == all.to_multiset(),
        decreases rest.len(),
    {
        let ghost before = rest@;
        let e = rest.pop().unwrap();
        proof {
            assert(sort_keys(before) =~= sort_keys(rest@).push(e.sort_key()));
        }
        let ghost s = sort_keys(out@);
        let mut j: usize = 0;
        while j < out.len() && out[j].key_le_exec(&e)
            invariant
                j <= out@.len(),
                s == sort_keys(out@),
                forall|p: int| 0 <= p < j ==> T::key_le(#[trigger] s[p], e.sort_key()),
            decreases out@.len() - j,
        {
            j = j + 1;
        }
        proof {
            lemma_insert_sorted::<T>(s, j as int, e.sort_key());
            let t = s.insert(j as int, e.sort_key());
            assert(s =~= s.take(j as int) + s.skip(j as int));
            assert(t =~= s.take(j as int) + seq![e.sort_key()] + s.skip(j as int));
            lemma_multiset_commutative(s.take(j as int), s.skip(j as int));
            lemma_multiset_commutative(s.take(j as int) + seq![e.sort_key()], s.skip(j as int));
            lemma_multiset_commutative(s.take(j as int), seq![e.sort_key()]);
        }
        let ghost k = e.sort_key();
        out.insert(j, e);
        proof {
            assert(sort_keys(out@) =~= s.insert(j as int, k));
        }
    }
    proof {
        assert(sort_keys(rest@) =~= Seq::<T::Key>::empty());
        assert(sort_keys(rest@).to_multiset() =~= Multiset::<T::Key>::empty());
        assert(sort_keys(out@).to_multiset() =~= all.to_multiset());
        lemma_key_order_total::<T>();
        all.lemma_sort_by_ensures(key_order::<T>());
        let r = sort_keys(out@);
        assert(sorted_by(r, key_order::<T>())) by {
            assert forall|i: int, j: int| 0 <= i < j < r.len() implies #[trigger] key_order::<T>()(
                r[i],
                r[j],
            ) by {
                assert(T::key_le(r[i], r[j]));
            }
        }
        lemma_sorted_unique(r, all.sort_by(key_order::<T>()), key_order::<T>());
    }
    out
}

} // verus!
