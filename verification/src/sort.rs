//! Stable ordering of findings by a key, largest key first.

use vstd::prelude::*;

verus! {

broadcast use vstd::seq_lib::group_to_multiset_ensures;

/// Items ordered by an integer key, largest first; items of equal key keep
/// the order in which they came.
pub trait DescKey: View + Sized {
    spec fn view_key(v: Self::V) -> int;

    fn key(&self) -> (r: u64)
        ensures
            r == Self::view_key(self@),
    ;
}

/// `s` with `x` placed after every element whose key is at least `x`'s, where
/// `s` is already ordered largest key first.
pub open spec fn insert_desc<T>(s: Seq<T>, x: T, key: spec_fn(T) -> int) -> Seq<T>
    decreases s.len(),
{
    if s.len() == 0 {
        seq![x]
    } else if key(s.last()) >= key(x) {
        s.push(x)
    } else {
        insert_desc(s.drop_last(), x, key).push(s.last())
    }
}

/// The stable ordering of `s` by `key`, largest first.
pub open spec fn sort_desc<T>(s: Seq<T>, key: spec_fn(T) -> int) -> Seq<T>
    decreases s.len(),
{
    if s.len() == 0 {
        s
    } else {
        insert_desc(sort_desc(s.drop_last(), key), s.last(), key)
    }
}

pub open spec fn is_sorted_desc<T>(s: Seq<T>, key: spec_fn(T) -> int) -> bool {
    forall|i: int, j: int| 0 <= i <= j < s.len() ==> key(s[i]) >= key(s[j])
}

proof fn lemma_insert_desc<T>(s: Seq<T>, x: T, key: spec_fn(T) -> int)
    requires
        is_sorted_desc(s, key),
    ensures
        is_sorted_desc(insert_desc(s, x, key), key),
        insert_desc(s, x, key).to_multiset() =~= s.to_multiset().insert(x),
        insert_desc(s, x, key).len() == s.len() + 1,
        insert_desc(s, x, key).len() > 0,
        key(insert_desc(s, x, key).last()) <= key(x) || insert_desc(s, x, key).last() == s.last(),
    decreases s.len(),
{
    if s.len() == 0 {
        assert(seq![x] =~= Seq::<T>::empty().push(x));
    } else if key(s.last()) >= key(x) {
    } else {
        let r = insert_desc(s.drop_last(), x, key);
        lemma_insert_desc(s.drop_last(), x, key);
        assert(s.drop_last().push(s.last()) =~= s);
        assert forall|i: int, j: int| 0 <= i <= j < r.len() + 1 implies key(r.push(s.last())[i]) >= key(r.push(s.last())[j]) by {
            if j == r.len() && i < j {
                // every element of r is either x or an element of s.drop_last()
                assert(r.to_multiset().contains(r[i]));
                assert(s.drop_last().to_multiset().insert(x).contains(r[i]));
                if r[i] != x {
                    assert(s.drop_last().to_multiset().contains(r[i]));
                    let k = choose|k: int| 0 <= k < s.drop_last().len() && s.drop_last()[k] == r[i];
                    assert(s[k] == r[i]);
                }
            }
        }
    }
}

/// Ordering by key keeps every element and yields an ordered sequence.
pub proof fn lemma_sort_desc<T>(s: Seq<T>, key: spec_fn(T) -> int)
    ensures
        is_sorted_desc(sort_desc(s, key), key),
        sort_desc(s, key).to_multiset() =~= s.to_multiset(),
        sort_desc(s, key).len() == s.len(),
    decreases s.len(),
{
    if s.len() > 0 {
        lemma_sort_desc(s.drop_last(), key);
        lemma_insert_desc(sort_desc(s.drop_last(), key), s.last(), key);
        assert(s.drop_last().push(s.last()) =~= s);
    }
}

/// Every element of the ordering is an element of `s`.
pub proof fn lemma_sort_desc_members<T>(s: Seq<T>, key: spec_fn(T) -> int, i: int)
    requires
        0 <= i < sort_desc(s, key).len(),
    ensures
        s.contains(sort_desc(s, key)[i]),
{
    lemma_sort_desc(s, key);
    assert(sort_desc(s, key).to_multiset().contains(sort_desc(s, key)[i]));
}

/// A property of every element of `s` holds of every element of its ordering.
pub proof fn lemma_sort_desc_keeps<T>(s: Seq<T>, key: spec_fn(T) -> int, p: spec_fn(T) -> bool)
    requires
        forall|i: int| 0 <= i < s.len() ==> p(#[trigger] s[i]),
    ensures
        forall|i: int| 0 <= i < sort_desc(s, key).len() ==> p(#[trigger] sort_desc(s, key)[i]),
{
    assert forall|i: int| 0 <= i < sort_desc(s, key).len() implies p(#[trigger] sort_desc(s, key)[i]) by {
        lemma_sort_desc_members(s, key, i);
        let j = choose|j: int| 0 <= j < s.len() && s[j] == sort_desc(s, key)[i];
        assert(p(s[j]));
    }
}

proof fn lemma_insert_at<T>(s: Seq<T>, x: T, key: spec_fn(T) -> int, p: int)
    requires
        0 <= p <= s.len(),
        forall|j: int| p <= j < s.len() ==> key(#[trigger] s[j]) < key(x),
        p == 0 || key(s[p - 1]) >= key(x),
    ensures
        insert_desc(s, x, key) =~= s.insert(p, x),
    decreases s.len() - p,
{
    if p < s.len() {
        let t = s.drop_last();
        assert(key(s.last()) < key(x));
        assert forall|j: int| p <= j < t.len() implies key(#[trigger] t[j]) < key(x) by {
            assert(t[j] == s[j]);
        }
        if p > 0 {
            assert(t[p - 1] == s[p - 1]);
        }
        lemma_insert_at(t, x, key, p);
        assert(t.insert(p, x).push(s.last()) =~= s.insert(p, x));
    } else if s.len() > 0 {
        assert(s.push(x) =~= s.insert(p, x));
    } else {
        assert(seq![x] =~= s.insert(p, x));
    }
}

/// The key by which items of type `T` are ordered, on their views.
pub open spec fn key_of<T: DescKey>() -> spec_fn(T::V) -> int {
    |x: T::V| T::view_key(x)
}

pub open spec fn views<T: View>(s: Seq<T>) -> Seq<T::V> {
    s.map_values(|t: T| t@)
}

/// Orders `v` by key, largest first, keeping the input order among equal
/// keys (insertion sort).
pub fn sort_by_key_desc<T: DescKey>(v: Vec<T>) -> (r: Vec<T>)
    ensures
        views(r@) == sort_desc(views(v@), key_of::<T>()),
{
    let ghost key = key_of::<T>();
    let ghost all = views(v@);
    let mut rest = v;
    let mut out: Vec<T> = Vec::new();
    let ghost mut done: int = 0;
    assert(all.take(0) =~= Seq::<T::V>::empty());
    proof { lemma_sort_desc(all.take(0), key); }
    while rest.len() > 0
        invariant
            all == views(v@),
            key == key_of::<T>(),
            0 <= done <= all.len(),
            done + rest@.len() == all.len(),
            views(rest@) =~= all.skip(done),
            views(out@) == sort_desc(all.take(done), key),
            is_sorted_desc(views(out@), key),
        decreases rest@.len(),
    {
        let ghost old_rest = rest@;
        let x = rest.remove(0);
        proof {
            assert(views(old_rest)[0] == x@);
            assert(all.skip(done)[0] == all[done]);
            assert(rest@ =~= old_rest.skip(1));
            assert forall|j: int| 0 <= j < rest@.len() implies #[trigger] views(rest@)[j] == all.skip(done + 1)[j] by {
                assert(views(old_rest)[j + 1] == all.skip(done)[j + 1]);
            }
            assert(views(rest@) =~= all.skip(done + 1));
        }
        let kx = x.key();
        let mut p = out.len();
        while p > 0 && out[p - 1].key() < kx
            invariant
                p <= out.len(),
                kx == T::view_key(x@),
                forall|j: int| p <= j < out@.len() ==> T::view_key(#[trigger] views(out@)[j]) < T::view_key(x@),
            decreases p,
        {
            p = p - 1;
        }
        let ghost before = views(out@);
        proof {
            assert forall|j: int| p <= j < before.len() implies key(#[trigger] before[j]) < key(x@) by {}
            lemma_insert_at(before, x@, key, p as int);
            lemma_insert_desc(before, x@, key);
        }
        out.insert(p, x);
        proof {
            assert(views(out@) =~= before.insert(p as int, x@));
            assert(all.take(done + 1).drop_last() =~= all.take(done));
            assert(all.take(done + 1).last() == x@);
            done = done + 1;
        }
    }
    assert(all.take(done) =~= all);
    out
}

} // verus!
