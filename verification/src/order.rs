//! A verified stable insertion sort over an integer sort key.
//!
//! The store's readers return rows ordered by timestamp; this module gives
//! them one sorting routine whose result is pinned exactly: it equals the
//! stable insertion sort of the input, so rows with equal keys keep their
//! append order.

use vstd::prelude::*;

verus! {

/// A row that can be ordered by an integer key and copied exactly.
pub trait SortKey: Sized {
    /// The key the row is ordered by.
    spec fn key(&self) -> int;

    /// Compares this row's key with another's.
    fn key_le(&self, other: &Self) -> (b: bool)
        ensures
            b == (self.key() <= other.key()),
    ;

    /// An exact copy of the row.
    fn duplicate(&self) -> (r: Self)
        ensures
            r == *self,
    ;
}

/// `x` inserted after every element of `s` whose key is at most `x`'s.
pub open spec fn insert_sorted<T: SortKey>(s: Seq<T>, x: T) -> Seq<T>
    decreases s.len(),
{
    if s.len() == 0 {
        seq![x]
    } else if s.last().key() <= x.key() {
        s.push(x)
    } else {
        insert_sorted(s.drop_last(), x).push(s.last())
    }
}

/// The stable insertion sort of `s`, ascending by key.
pub open spec fn sort_by_key<T: SortKey>(s: Seq<T>) -> Seq<T>
    decreases s.len(),
{
    if s.len() == 0 {
        Seq::empty()
    } else {
        insert_sorted(sort_by_key(s.drop_last()), s.last())
    }
}

/// Keys appear in ascending order.
pub open spec fn sorted_by_key<T: SortKey>(s: Seq<T>) -> bool {
    forall|i: int, j: int| 0 <= i < j < s.len() ==> s[i].key() <= s[j].key()
}

proof fn lemma_insert_sorted_len<T: SortKey>(s: Seq<T>, x: T)
    ensures
        insert_sorted(s, x).len() == s.len() + 1,
    decreases s.len(),
{
    if s.len() > 0 && !(s.last().key() <= x.key()) {
        lemma_insert_sorted_len(s.drop_last(), x);
    }
}

proof fn lemma_insert_sorted_sorted<T: SortKey>(s: Seq<T>, x: T)
    requires
        sorted_by_key(s),
    ensures
        sorted_by_key(insert_sorted(s, x)),
    decreases s.len(),
{
    if s.len() == 0 {
    } else if s.last().key() <= x.key() {
    } else {
        assert(sorted_by_key(s.drop_last()));
        lemma_insert_sorted_sorted(s.drop_last(), x);
        lemma_insert_sorted_len(s.drop_last(), x);
        let r = insert_sorted(s.drop_last(), x).push(s.last());
        assert forall|i: int, j: int| 0 <= i < j < r.len() implies r[i].key() <= r[j].key() by {
            if j < r.len() - 1 {
            } else {
                lemma_insert_sorted_elems(s.drop_last(), x, i);
            }
        }
    }
}

/// Every element of the inserted sequence is `x` or an element of `s`.
proof fn lemma_insert_sorted_elems<T: SortKey>(s: Seq<T>, x: T, i: int)
    requires
        0 <= i < insert_sorted(s, x).len(),
    ensures
        insert_sorted(s, x)[i] == x || exists|j: int|
            0 <= j < s.len() && insert_sorted(s, x)[i] == s[j],
    decreases s.len(),
{
    lemma_insert_sorted_len(s, x);
    if s.len() == 0 {
    } else if s.last().key() <= x.key() {
        if i < s.len() {
            assert(insert_sorted(s, x)[i] == s[i]);
        }
    } else {
        lemma_insert_sorted_len(s.drop_last(), x);
        if i < insert_sorted(s.drop_last(), x).len() {
            lemma_insert_sorted_elems(s.drop_last(), x, i);
            assert(insert_sorted(s, x)[i] == insert_sorted(s.drop_last(), x)[i]);
        } else {
            assert(insert_sorted(s, x)[i] == s.last());
            assert(s.last() == s[s.len() - 1]);
        }
    }
}

/// The sort's result is in ascending key order.
pub proof fn lemma_sort_by_key_sorted<T: SortKey>(s: Seq<T>)
    ensures
        sorted_by_key(sort_by_key(s)),
    decreases s.len(),
{
    if s.len() > 0 {
        lemma_sort_by_key_sorted(s.drop_last());
        lemma_insert_sorted_sorted(sort_by_key(s.drop_last()), s.last());
    }
}

/// A sequence already in ascending key order is its own sort: rows stay in
/// append order.
pub proof fn lemma_sort_by_key_identity<T: SortKey>(s: Seq<T>)
    requires
        sorted_by_key(s),
    ensures
        sort_by_key(s) == s,
    decreases s.len(),
{
    if s.len() > 0 {
        assert(sorted_by_key(s.drop_last()));
        lemma_sort_by_key_identity(s.drop_last());
        let s1 = s.drop_last();
        if s1.len() > 0 {
            assert(s1.last() == s[s.len() - 2]);
            assert(s1.last().key() <= s.last().key());
        }
        assert(insert_sorted(s1, s.last()) =~= s);
    }
}

/// Any property holding of every input element and of `x` holds of every
/// element of the inserted sequence.
proof fn lemma_insert_sorted_all<T: SortKey>(s: Seq<T>, x: T, p: spec_fn(T) -> bool)
    requires
        forall|i: int| 0 <= i < s.len() ==> p(#[trigger] s[i]),
        p(x),
    ensures
        forall|i: int| 0 <= i < insert_sorted(s, x).len() ==> p(#[trigger] insert_sorted(s, x)[i]),
    decreases s.len(),
{
    lemma_insert_sorted_len(s, x);
    assert forall|i: int| 0 <= i < insert_sorted(s, x).len() implies p(insert_sorted(s, x)[i]) by {
        lemma_insert_sorted_elems(s, x, i);
    }
}

/// Any property holding of every input element holds of every element of
/// the sort.
pub proof fn lemma_sort_by_key_all<T: SortKey>(s: Seq<T>, p: spec_fn(T) -> bool)
    requires
        forall|i: int| 0 <= i < s.len() ==> p(#[trigger] s[i]),
    ensures
        sort_by_key(s).len() == s.len(),
        forall|i: int| 0 <= i < sort_by_key(s).len() ==> p(#[trigger] sort_by_key(s)[i]),
    decreases s.len(),
{
    if s.len() > 0 {
        assert(forall|i: int| 0 <= i < s.drop_last().len() ==> p(#[trigger] s.drop_last()[i]));
        lemma_sort_by_key_all(s.drop_last(), p);
        lemma_insert_sorted_len(sort_by_key(s.drop_last()), s.last());
        lemma_insert_sorted_all(sort_by_key(s.drop_last()), s.last(), p);
    }
}

/// Inserting into a sorted sequence at the position the exec search finds
/// matches the spec-level insertion.
proof fn lemma_insert_sorted_at<T: SortKey>(s: Seq<T>, x: T, idx: int)
    requires
        sorted_by_key(s),
        0 <= idx <= s.len(),
        forall|j: int| 0 <= j < idx ==> #[trigger] s[j].key() <= x.key(),
        forall|j: int| idx <= j < s.len() ==> x.key() < #[trigger] s[j].key(),
    ensures
        insert_sorted(s, x) == s.insert(idx, x),
    decreases s.len(),
{
    if s.len() == 0 {
        assert(insert_sorted(s, x) =~= s.insert(0, x));
    } else if s.last().key() <= x.key() {
        assert(idx == s.len());
        assert(insert_sorted(s, x) =~= s.insert(idx, x));
    } else {
        assert(idx < s.len());
        let s1 = s.drop_last();
        assert(sorted_by_key(s1));
        lemma_insert_sorted_at(s1, x, idx);
        assert(insert_sorted(s1, x).push(s.last()) =~= s.insert(idx, x));
    }
}

/// Sorts the rows of `v` into a new vector, ascending by key; rows with
/// equal keys keep their order in `v`.
pub fn sort_vec_by_key<T: SortKey>(v: &Vec<T>) -> (r: Vec<T>)
    ensures
        r@ == sort_by_key(v@),
{
    let mut r: Vec<T> = Vec::new();
    assert(v@.take(0) =~= Seq::<T>::empty());
    for i in 0..v.len()
        invariant
            r@ == sort_by_key(v@.take(i as int)),
    {
        let x = v[i].duplicate();
        proof {
            lemma_sort_by_key_sorted(v@.take(i as int));
        }
        let mut idx: usize = 0;
        while idx < r.len() && r[idx].key_le(&x)
            invariant
                idx <= r@.len(),
                forall|j: int| 0 <= j < idx ==> #[trigger] r@[j].key() <= x.key(),
                r@ == sort_by_key(v@.take(i as int)),
                sorted_by_key(r@),
            decreases r@.len() - idx,
        {
            idx = idx + 1;
        }
        proof {
            assert forall|j: int| idx <= j < r@.len() implies x.key() < #[trigger] r@[j].key() by {
                assert(r@[idx as int].key() <= r@[j].key());
            }
            lemma_insert_sorted_at(r@, x, idx as int);
            assert(v@.take(i + 1).drop_last() =~= v@.take(i as int));
            assert(v@.take(i + 1).last() == v@[i as int]);
        }
        r.insert(idx, x);
    }
    proof {
        assert(v@.take(v@.len() as int) =~= v@);
    }
    r
}

} // verus!
