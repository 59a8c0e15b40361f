//! The save-time ordering of a snapshot: a deterministic insertion sort by
//! the records' sort keys. The sort is a function of the snapshot alone, so
//! re-sorting a sorted snapshot leaves it unchanged, which the idempotence
//! of upserts rests on.

use vstd::prelude::*;
use vstd::multiset::Multiset;
use vstd::seq_lib::group_to_multiset_ensures;
use crate::order::{key_le, lemma_key_le_total, lemma_key_le_trans, key_le_exec};
use crate::record::Sortable;

verus! {

/// The value sequence of a vector of records.
pub open spec fn snap_view<T: View>(v: Vec<T>) -> Seq<T::V> {
    v@.map_values(|r: T| r@)
}

/// A snapshot in the order of the collection's policy.
pub open spec fn sorted_snap<T: Sortable>(s: Seq<T::V>) -> bool {
    forall|i: int, j: int|
        0 <= i < j < s.len() ==> #[trigger] key_le(T::rkey_of(s[i]), T::rkey_of(s[j]))
}

/// Stable insertion into a snapshot: the record goes after every record
/// whose key does not exceed its own.
pub open spec fn insert_sorted<T: Sortable>(v: T::V, s: Seq<T::V>) -> Seq<T::V>
    decreases s.len(),
{
    if s.len() == 0 {
        seq![v]
    } else if key_le(T::rkey_of(s.last()), T::rkey_of(v)) {
        s.push(v)
    } else {
        insert_sorted::<T>(v, s.drop_last()).push(s.last())
    }
}

/// The policy order of a snapshot: insertion sort, a deterministic function
/// of the sequence.
pub open spec fn sort_snap<T: Sortable>(s: Seq<T::V>) -> Seq<T::V>
    decreases s.len(),
{
    if s.len() == 0 {
        Seq::empty()
    } else {
        insert_sorted::<T>(s.last(), sort_snap::<T>(s.drop_last()))
    }
}

pub proof fn lemma_insert_sorted_ensures<T: Sortable>(v: T::V, s: Seq<T::V>)
    requires
        sorted_snap::<T>(s),
    ensures
        sorted_snap::<T>(insert_sorted::<T>(v, s)),
        insert_sorted::<T>(v, s).to_multiset() == s.to_multiset().insert(v),
        insert_sorted::<T>(v, s).len() == s.len() + 1,
    decreases s.len(),
{
    broadcast use group_to_multiset_ensures;

    if s.len() == 0 {
        let t = insert_sorted::<T>(v, s);
        assert(t =~= Seq::<T::V>::empty().push(v));
        assert(s.to_multiset() =~= Multiset::<T::V>::empty());
        assert(t.to_multiset() =~= s.to_multiset().insert(v));
    } else if key_le(T::rkey_of(s.last()), T::rkey_of(v)) {
        let t = s.push(v);
        assert forall|i: int, j: int| 0 <= i < j < t.len() implies #[trigger] key_le(
            T::rkey_of(t[i]),
            T::rkey_of(t[j]),
        ) by {
            if j == s.len() {
                if i < s.len() - 1 {
                    assert(key_le(T::rkey_of(s[i]), T::rkey_of(s[s.len() - 1])));
                    lemma_key_le_trans(T::rkey_of(s[i]), T::rkey_of(s.last()), T::rkey_of(v));
                }
            }
        }
        assert(t.to_multiset() =~= s.to_multiset().insert(v));
    } else {
        assert(sorted_snap::<T>(s.drop_last())) by {
            assert forall|i: int, j: int| 0 <= i < j < s.drop_last().len() implies #[trigger]
                key_le(T::rkey_of(s.drop_last()[i]), T::rkey_of(s.drop_last()[j])) by {
                assert(s.drop_last()[i] == s[i]);
                assert(s.drop_last()[j] == s[j]);
                assert(key_le(T::rkey_of(s[i]), T::rkey_of(s[j])));
            }
        }
        lemma_insert_sorted_ensures::<T>(v, s.drop_last());
        let p = insert_sorted::<T>(v, s.drop_last());
        let t = p.push(s.last());
        assert(insert_sorted::<T>(v, s) == t);
        assert(s =~= s.drop_last().push(s.last()));
        assert(s.to_multiset() =~= s.drop_last().to_multiset().insert(s.last()));
        assert(t.to_multiset() =~= p.to_multiset().insert(s.last()));
        assert(t.to_multiset() =~= s.to_multiset().insert(v));
        lemma_key_le_total(T::rkey_of(s.last()), T::rkey_of(v));
        assert forall|i: int| 0 <= i < p.len() implies #[trigger] key_le(
            T::rkey_of(p[i]),
            T::rkey_of(s.last()),
        ) by {
            assert(p.contains(p[i]));
            assert(p.to_multiset().count(p[i]) > 0);
            if p[i] == v {
            } else {
                assert(s.drop_last().to_multiset().count(p[i]) > 0);
                assert(s.drop_last().contains(p[i]));
                let k = choose|k: int|
                    0 <= k < s.drop_last().len() && s.drop_last()[k] == p[i];
                assert(s[k] == p[i]);
                assert(key_le(T::rkey_of(s[k]), T::rkey_of(s[s.len() - 1])));
            }
        }
        assert forall|i: int, j: int| 0 <= i < j < t.len() implies #[trigger] key_le(
            T::rkey_of(t[i]),
            T::rkey_of(t[j]),
        ) by {
            if j < p.len() {
                assert(key_le(T::rkey_of(p[i]), T::rkey_of(p[j])));
            } else {
                assert(key_le(T::rkey_of(p[i]), T::rkey_of(s.last())));
            }
        }
    }
}

pub proof fn lemma_sort_snap_ensures<T: Sortable>(s: Seq<T::V>)
    ensures
        sorted_snap::<T>(sort_snap::<T>(s)),
        sort_snap::<T>(s).to_multiset() == s.to_multiset(),
        sort_snap::<T>(s).len() == s.len(),
    decreases s.len(),
{
    broadcast use group_to_multiset_ensures;

    if s.len() == 0 {
        assert(sort_snap::<T>(s) =~= Seq::<T::V>::empty());
    } else {
        lemma_sort_snap_ensures::<T>(s.drop_last());
        lemma_insert_sorted_ensures::<T>(s.last(), sort_snap::<T>(s.drop_last()));
        assert(s =~= s.drop_last().push(s.last()));
        assert(s.to_multiset() =~= s.drop_last().to_multiset().insert(s.last()));
        assert(sort_snap::<T>(s).to_multiset() =~= s.to_multiset());
    }
}

/// Sorting a snapshot that is already in policy order leaves it unchanged.
pub proof fn lemma_sort_snap_sorted_id<T: Sortable>(s: Seq<T::V>)
    requires
        sorted_snap::<T>(s),
    ensures
        sort_snap::<T>(s) == s,
    decreases s.len(),
{
    if s.len() == 0 {
        assert(sort_snap::<T>(s) =~= s);
    } else {
        let p = s.drop_last();
        assert(sorted_snap::<T>(p)) by {
            assert forall|i: int, j: int| 0 <= i < j < p.len() implies #[trigger] key_le(
                T::rkey_of(p[i]),
                T::rkey_of(p[j]),
            ) by {
                assert(p[i] == s[i]);
                assert(p[j] == s[j]);
                assert(key_le(T::rkey_of(s[i]), T::rkey_of(s[j])));
            }
        }
        lemma_sort_snap_sorted_id::<T>(p);
        if p.len() == 0 {
            assert(sort_snap::<T>(s) =~= s);
        } else {
            assert(p.last() == s[s.len() - 2]);
            assert(key_le(T::rkey_of(s[s.len() - 2]), T::rkey_of(s[s.len() - 1])));
            assert(key_le(T::rkey_of(p.last()), T::rkey_of(s.last())));
            assert(sort_snap::<T>(s) == p.push(s.last()));
            assert(p.push(s.last()) =~= s);
        }
    }
}

/// Where the insertion point's neighbours stand to the new record decides
/// the exact shape of the insertion.
pub proof fn lemma_insert_sorted_split<T: Sortable>(v: T::V, s: Seq<T::V>, j: int)
    requires
        0 <= j <= s.len(),
        forall|m: int| j <= m < s.len() ==> !key_le(T::rkey_of(#[trigger] s[m]), T::rkey_of(v)),
        j > 0 ==> key_le(T::rkey_of(s[j - 1]), T::rkey_of(v)),
    ensures
        insert_sorted::<T>(v, s) == s.take(j) + seq![v] + s.skip(j),
    decreases s.len(),
{
    if s.len() == 0 {
        assert(insert_sorted::<T>(v, s) =~= s.take(j) + seq![v] + s.skip(j));
    } else if key_le(T::rkey_of(s.last()), T::rkey_of(v)) {
        assert(j == s.len()) by {
            if j < s.len() {
                assert(!key_le(T::rkey_of(s[s.len() - 1]), T::rkey_of(v)));
            }
        }
        assert(insert_sorted::<T>(v, s) =~= s.take(j) + seq![v] + s.skip(j));
    } else {
        assert(j < s.len()) by {
            if j == s.len() {
                assert(key_le(T::rkey_of(s[j - 1]), T::rkey_of(v)));
                assert(s[j - 1] == s.last());
            }
        }
        let p = s.drop_last();
        assert forall|m: int| j <= m < p.len() implies !key_le(
            T::rkey_of(#[trigger] p[m]),
            T::rkey_of(v),
        ) by {
            assert(p[m] == s[m]);
        }
        assert(j > 0 ==> p[j - 1] == s[j - 1]);
        lemma_insert_sorted_split::<T>(v, p, j);
        assert(insert_sorted::<T>(v, s) == insert_sorted::<T>(v, p).push(s.last()));
        assert((p.take(j) + seq![v] + p.skip(j)).push(s.last()) =~= s.take(j) + seq![v] + s.skip(
            j,
        ));
    }
}

/// Sorts the records in place into the collection's policy order.
#[verifier::loop_isolation(false)]
pub fn sort_records<T: Sortable>(data: &mut Vec<T>)
    ensures
        snap_view(*final(data)) == sort_snap::<T>(snap_view(*old(data))),
{
    let ghost orig = snap_view(*old(data));
    let n = data.len();
    proof {
        assert(orig.take(0) =~= Seq::<T::V>::empty());
        assert(sort_snap::<T>(orig.take(0)) =~= Seq::<T::V>::empty());
        assert(orig.skip(0) =~= orig);
        assert(snap_view(*data) =~= sort_snap::<T>(orig.take(0)) + orig.skip(0));
    }
    let mut k: usize = 0;
    while k < n
        invariant
            0 <= k <= n,
            data@.len() == n,
            snap_view(*data) == sort_snap::<T>(orig.take(k as int)) + orig.skip(k as int),
        decreases n - k,
    {
        let ghost pre = sort_snap::<T>(orig.take(k as int));
        let xkey = data[k].sortable_value();
        proof {
            assert(snap_view(*data)[k as int] == data@[k as int]@);
            assert(snap_view(*data)[k as int] == orig.skip(k as int)[0]);
            assert(orig.skip(k as int)[0] == orig[k as int]);
            assert(T::rkey_of(orig[k as int]) == xkey@);
        }
        let mut j: usize = k;
        let mut searching = true;
        while searching
            invariant
                0 <= j <= k,
                forall|m: int| j <= m < k ==> !key_le(T::rkey_of(#[trigger] pre[m]), xkey@),
                !searching ==> (j == 0 || key_le(T::rkey_of(pre[j - 1]), xkey@)),
            decreases j + (if searching { 1int } else { 0int }),
        {
            if j == 0 {
                searching = false;
            } else {
                let prev_key = data[j - 1].sortable_value();
                proof {
                    assert(snap_view(*data)[j - 1] == data@[j - 1]@);
                    assert(snap_view(*data)[j - 1] == pre[j - 1]);
                }
                if key_le_exec(&prev_key, &xkey) {
                    searching = false;
                } else {
                    j = j - 1;
                }
            }
        }
        proof {
            lemma_sort_snap_ensures::<T>(orig.take(k as int));
            assert(orig.take(k as int).len() == k);
            assert(pre.len() == k);
        }
        let ghost pre_vec = data@;
        let x = data.remove(k);
        data.insert(j, x);
        proof {
            assert(x == pre_vec[k as int]);
            assert((pre_vec.map_values(|r: T| r@))[k as int] == pre_vec[k as int]@);
            assert(x@ == orig[k as int]) by {
                assert((pre + orig.skip(k as int))[k as int] == orig.skip(k as int)[0]);
            }
            lemma_insert_sorted_split::<T>(orig[k as int], pre, j as int);
            assert(orig.take(k + 1).drop_last() =~= orig.take(k as int));
            assert(orig.take(k + 1).last() == orig[k as int]);
            assert(sort_snap::<T>(orig.take(k + 1)) == insert_sorted::<T>(orig[k as int], pre));
            let tgt = sort_snap::<T>(orig.take(k + 1)) + orig.skip(k + 1);
            assert(tgt.len() == n);
            assert(data@ == pre_vec.remove(k as int).insert(j as int, x));
            assert(data@.len() == n);
            assert forall|idx: int| 0 <= idx < n implies (#[trigger] snap_view(*data)[idx])
                == tgt[idx] by {
                assert(snap_view(*data)[idx] == data@[idx]@);
                assert((pre_vec.map_values(|r: T| r@))[idx] == pre_vec[idx]@);
                if idx < j {
                    assert(data@[idx] == pre_vec[idx]);
                    assert(pre_vec[idx]@ == (pre + orig.skip(k as int))[idx]);
                    assert(tgt[idx] == pre.take(j as int)[idx]);
                } else if idx == j {
                    assert(data@[idx] == x);
                    assert(tgt[idx] == orig[k as int]);
                } else if idx <= k {
                    assert(data@[idx] == pre_vec[idx - 1]);
                    assert((pre_vec.map_values(|r: T| r@))[idx - 1] == pre_vec[idx - 1]@);
                    assert(pre_vec[idx - 1]@ == (pre + orig.skip(k as int))[idx - 1]);
                    assert(tgt[idx] == pre.skip(j as int)[idx - j - 1]);
                } else {
                    assert(data@[idx] == pre_vec[idx]);
                    assert(pre_vec[idx]@ == (pre + orig.skip(k as int))[idx]);
                    assert((pre + orig.skip(k as int))[idx] == orig.skip(k as int)[idx - k]);
                    assert(tgt[idx] == orig.skip(k + 1)[idx - (k + 1)]);
                }
            }
            assert(snap_view(*data) =~= tgt);
        }
        k = k + 1;
    }
    proof {
        assert(orig.take(n as int) =~= orig);
        assert(orig.skip(n as int) =~= Seq::<T::V>::empty());
        assert(snap_view(*data) =~= sort_snap::<T>(orig));
    }
}

} // verus!
