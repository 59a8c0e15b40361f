//! The laws of the store, stated over the snapshot model that the store's
//! contracts use. `apply_upsert` and `apply_delete` are exactly what
//! `upsert` and `delete_by_id` do to the snapshot: mutate, then re-apply
//! the ordering policy.

use vstd::prelude::*;
use crate::codec::{valid_snapshot_fields, enc_snapshot};
use crate::db_base::{
    has_id, lookup, unique_ids, upsert_seq, delete_seq, snap_fields, opens_to,
    lemma_upsert_seq_ensures, lemma_delete_seq_ensures, lemma_unique_ids_multiset,
};
use crate::record::{HasId, Sortable, Persist};
use crate::sort::{sorted_snap, sort_snap, lemma_sort_snap_ensures, lemma_sort_snap_sorted_id};
use vstd::seq_lib::group_to_multiset_ensures;

verus! {

/// What `upsert` does to the snapshot.
pub open spec fn apply_upsert<T: HasId + Sortable>(s: Seq<T::V>, v: T::V) -> Seq<T::V> {
    sort_snap::<T>(upsert_seq::<T>(s, v))
}

/// What `delete_by_id` does to the snapshot.
pub open spec fn apply_delete<T: HasId + Sortable>(s: Seq<T::V>, id: u64) -> Seq<T::V> {
    sort_snap::<T>(delete_seq::<T>(s, id))
}

/// Re-ordering a snapshot with unique identities moves records without
/// changing what any identity looks up.
pub proof fn lemma_lookup_multiset<T: HasId>(a: Seq<T::V>, b: Seq<T::V>)
    requires
        a.to_multiset() == b.to_multiset(),
        unique_ids::<T>(a),
    ensures
        forall|id: u64| #[trigger] lookup::<T>(a, id) == lookup::<T>(b, id),
{
    broadcast use group_to_multiset_ensures;

    lemma_unique_ids_multiset::<T>(a, b);
    assert forall|id: u64| #[trigger] lookup::<T>(a, id) == lookup::<T>(b, id) by {
        if has_id::<T>(a, id) {
            let ia = choose|i: int| 0 <= i < a.len() && T::rid_of(#[trigger] a[i]) == id;
            assert(a.contains(a[ia]));
            assert(b.to_multiset().count(a[ia]) > 0);
            assert(b.contains(a[ia]));
            let k = choose|k: int| 0 <= k < b.len() && b[k] == a[ia];
            assert(T::rid_of(b[k]) == id);
            assert(has_id::<T>(b, id));
            let ia2 = choose|i: int| 0 <= i < a.len() && T::rid_of(#[trigger] a[i]) == id;
            let ib = choose|i: int| 0 <= i < b.len() && T::rid_of(#[trigger] b[i]) == id;
            assert(ib == k) by {
                if ib != k {
                    assert(T::rid_of(b[ib]) != T::rid_of(b[k]));
                }
            }
            assert(ia2 == ia) by {
                if ia2 != ia {
                    assert(T::rid_of(a[ia2]) != T::rid_of(a[ia]));
                }
            }
            assert(lookup::<T>(a, id) == Option::Some(a[ia]));
            assert(lookup::<T>(b, id) == Option::Some(b[k]));
        } else {
            assert(!has_id::<T>(b, id)) by {
                if has_id::<T>(b, id) {
                    let ib = choose|i: int| 0 <= i < b.len() && T::rid_of(#[trigger] b[i]) == id;
                    assert(b.contains(b[ib]));
                    assert(a.to_multiset().count(b[ib]) > 0);
                    assert(a.contains(b[ib]));
                    let k = choose|k: int| 0 <= k < a.len() && a[k] == b[ib];
                    assert(T::rid_of(a[k]) == id);
                }
            }
        }
    }
}

/// After an upsert the snapshot is well-formed, the upserted identity looks
/// up exactly the new record, every other identity is untouched, and the
/// length grew exactly when the identity was new.
pub proof fn lemma_upsert_law<T: HasId + Sortable>(s: Seq<T::V>, v: T::V)
    requires
        unique_ids::<T>(s),
    ensures
        unique_ids::<T>(apply_upsert::<T>(s, v)),
        sorted_snap::<T>(apply_upsert::<T>(s, v)),
        lookup::<T>(apply_upsert::<T>(s, v), T::rid_of(v)) == Option::Some(v),
        forall|id: u64|
            id != T::rid_of(v) ==> #[trigger] lookup::<T>(apply_upsert::<T>(s, v), id)
                == lookup::<T>(s, id),
        apply_upsert::<T>(s, v).len() == if has_id::<T>(s, T::rid_of(v)) {
            s.len()
        } else {
            s.len() + 1
        },
{
    let u = upsert_seq::<T>(s, v);
    lemma_upsert_seq_ensures::<T>(s, v);
    lemma_sort_snap_ensures::<T>(u);
    lemma_unique_ids_multiset::<T>(u, apply_upsert::<T>(s, v));
    lemma_lookup_multiset::<T>(u, apply_upsert::<T>(s, v));
}

/// After a deletion the snapshot is well-formed, the deleted identity looks
/// up nothing, every other identity is untouched, and the length shrank
/// exactly when the identity was present.
pub proof fn lemma_delete_law<T: HasId + Sortable>(s: Seq<T::V>, id: u64)
    requires
        unique_ids::<T>(s),
    ensures
        unique_ids::<T>(apply_delete::<T>(s, id)),
        sorted_snap::<T>(apply_delete::<T>(s, id)),
        lookup::<T>(apply_delete::<T>(s, id), id) is None,
        forall|id2: u64|
            id2 != id ==> #[trigger] lookup::<T>(apply_delete::<T>(s, id), id2) == lookup::<T>(
                s,
                id2,
            ),
        apply_delete::<T>(s, id).len() == if has_id::<T>(s, id) {
            s.len() - 1
        } else {
            s.len() as int
        },
{
    let u = delete_seq::<T>(s, id);
    lemma_delete_seq_ensures::<T>(s, id);
    lemma_sort_snap_ensures::<T>(u);
    lemma_unique_ids_multiset::<T>(u, apply_delete::<T>(s, id));
    lemma_lookup_multiset::<T>(u, apply_delete::<T>(s, id));
}

/// One mutation of a collection, as a value.
pub enum StoreOp<V> {
    Upsert(V),
    Delete(u64),
}

/// What a mutation does to the snapshot.
pub open spec fn apply_op<T: HasId + Sortable>(s: Seq<T::V>, op: StoreOp<T::V>) -> Seq<T::V> {
    match op {
        StoreOp::Upsert(v) => apply_upsert::<T>(s, v),
        StoreOp::Delete(id) => apply_delete::<T>(s, id),
    }
}

/// What a sequence of mutations does to the snapshot, applied in order.
pub open spec fn apply_ops<T: HasId + Sortable>(s: Seq<T::V>, ops: Seq<StoreOp<T::V>>) -> Seq<
    T::V,
>
    decreases ops.len(),
{
    if ops.len() == 0 {
        s
    } else {
        apply_op::<T>(apply_ops::<T>(s, ops.drop_last()), ops.last())
    }
}

/// The latest write a mutation sequence applies to an identity: the record
/// of its last upsert, nothing after its last deletion, or no touch at all.
pub open spec fn last_write<T: HasId>(ops: Seq<StoreOp<T::V>>, id: u64) -> Option<Option<T::V>>
    decreases ops.len(),
{
    if ops.len() == 0 {
        Option::None
    } else {
        match ops.last() {
            StoreOp::Upsert(v) => if T::rid_of(v) == id {
                Option::Some(Option::Some(v))
            } else {
                last_write::<T>(ops.drop_last(), id)
            },
            StoreOp::Delete(d) => if d == id {
                Option::Some(Option::<T::V>::None)
            } else {
                last_write::<T>(ops.drop_last(), id)
            },
        }
    }
}

/// For every sequence of upserts and deletions, and after each one of them
/// (every prefix is itself a sequence), every identity looks up exactly its
/// latest applied write. Together with the length clauses of the
/// per-mutation laws, the snapshot's length tracks the distinct identities
/// added and removed.
pub proof fn lemma_ops_track_lookup<T: HasId + Sortable>(
    s: Seq<T::V>,
    ops: Seq<StoreOp<T::V>>,
    id: u64,
)
    requires
        unique_ids::<T>(s),
    ensures
        unique_ids::<T>(apply_ops::<T>(s, ops)),
        lookup::<T>(apply_ops::<T>(s, ops), id) == match last_write::<T>(ops, id) {
            Option::Some(r) => r,
            Option::None => lookup::<T>(s, id),
        },
    decreases ops.len(),
{
    if ops.len() == 0 {
    } else {
        let prefix = ops.drop_last();
        lemma_ops_track_lookup::<T>(s, prefix, id);
        let mid = apply_ops::<T>(s, prefix);
        match ops.last() {
            StoreOp::Upsert(v) => {
                lemma_upsert_law::<T>(mid, v);
            },
            StoreOp::Delete(d) => {
                lemma_delete_law::<T>(mid, d);
            },
        }
    }
}

/// Idempotence: upserting an identical record twice in a row produces the
/// same snapshot as upserting it once.
pub proof fn lemma_upsert_idempotent<T: HasId + Sortable>(s: Seq<T::V>, v: T::V)
    requires
        unique_ids::<T>(s),
    ensures
        apply_upsert::<T>(apply_upsert::<T>(s, v), v) == apply_upsert::<T>(s, v),
{
    let t = apply_upsert::<T>(s, v);
    lemma_upsert_law::<T>(s, v);
    assert(has_id::<T>(t, T::rid_of(v))) by {
        assert(lookup::<T>(t, T::rid_of(v)) == Option::Some(v));
    }
    let ix = choose|i: int| 0 <= i < t.len() && T::rid_of(#[trigger] t[i]) == T::rid_of(v);
    assert(lookup::<T>(t, T::rid_of(v)) == Option::Some(t[ix]));
    assert(t[ix] == v);
    assert(upsert_seq::<T>(t, v) =~= t);
    lemma_sort_snap_sorted_id::<T>(t);
}

/// A sequence of upserts with fresh, pairwise-distinct identities loses and
/// duplicates nothing: every record ends up in the snapshot, whose length
/// grows by exactly the number of records. Under the store's exclusive
/// critical section, concurrent upserts apply in the order their callers
/// acquired it, so this covers any interleaving of distinct-identity
/// upserts.
pub open spec fn apply_upserts<T: HasId + Sortable>(s: Seq<T::V>, recs: Seq<T::V>) -> Seq<T::V>
    decreases recs.len(),
{
    if recs.len() == 0 {
        s
    } else {
        apply_upserts::<T>(apply_upsert::<T>(s, recs[0]), recs.drop_first())
    }
}

pub proof fn lemma_distinct_upserts_all_kept<T: HasId + Sortable>(s: Seq<T::V>, recs: Seq<T::V>)
    requires
        unique_ids::<T>(s),
        forall|i: int, j: int|
            0 <= i < j < recs.len() ==> T::rid_of(#[trigger] recs[i]) != T::rid_of(
                #[trigger] recs[j],
            ),
        forall|i: int| 0 <= i < recs.len() ==> !has_id::<T>(s, T::rid_of(#[trigger] recs[i])),
    ensures
        unique_ids::<T>(apply_upserts::<T>(s, recs)),
        apply_upserts::<T>(s, recs).len() == s.len() + recs.len(),
        forall|i: int|
            0 <= i < recs.len() ==> lookup::<T>(apply_upserts::<T>(s, recs), T::rid_of(
                #[trigger] recs[i],
            )) == Option::Some(recs[i]),
    decreases recs.len(),
{
    if recs.len() == 0 {
    } else {
        let v = recs[0];
        let s1 = apply_upsert::<T>(s, v);
        lemma_upsert_law::<T>(s, v);
        let rest = recs.drop_first();
        assert forall|i: int, j: int|
            0 <= i < j < rest.len() implies T::rid_of(#[trigger] rest[i]) != T::rid_of(
            #[trigger] rest[j],
        ) by {
            assert(rest[i] == recs[i + 1]);
            assert(rest[j] == recs[j + 1]);
        }
        assert forall|i: int| 0 <= i < rest.len() implies !has_id::<T>(
            s1,
            T::rid_of(#[trigger] rest[i]),
        ) by {
            assert(rest[i] == recs[i + 1]);
            assert(T::rid_of(recs[i + 1]) != T::rid_of(recs[0]));
            assert(lookup::<T>(s1, T::rid_of(recs[i + 1])) == lookup::<T>(
                s,
                T::rid_of(recs[i + 1]),
            ));
            assert(!has_id::<T>(s, T::rid_of(recs[i + 1])));
        }
        lemma_distinct_upserts_all_kept::<T>(s1, rest);
        assert forall|i: int| 0 <= i < recs.len() implies lookup::<T>(
            apply_upserts::<T>(s, recs),
            T::rid_of(#[trigger] recs[i]),
        ) == Option::Some(recs[i]) by {
            if i == 0 {
                // the first identity is untouched by the remaining upserts
                lemma_lookup_untouched_by_fresh_upserts::<T>(s1, rest, T::rid_of(v));
            } else {
                assert(rest[i - 1] == recs[i]);
            }
        }
    }
}

/// Upserts of other identities never touch a given identity's lookup.
pub proof fn lemma_lookup_untouched_by_fresh_upserts<T: HasId + Sortable>(
    s: Seq<T::V>,
    recs: Seq<T::V>,
    id: u64,
)
    requires
        unique_ids::<T>(s),
        forall|i: int| 0 <= i < recs.len() ==> T::rid_of(#[trigger] recs[i]) != id,
    ensures
        lookup::<T>(apply_upserts::<T>(s, recs), id) == lookup::<T>(s, id),
    decreases recs.len(),
{
    if recs.len() == 0 {
    } else {
        let s1 = apply_upsert::<T>(s, recs[0]);
        lemma_upsert_law::<T>(s, recs[0]);
        assert forall|i: int| 0 <= i < recs.drop_first().len() implies T::rid_of(
            #[trigger] recs.drop_first()[i],
        ) != id by {
            assert(recs.drop_first()[i] == recs[i + 1]);
        }
        lemma_lookup_untouched_by_fresh_upserts::<T>(s1, recs.drop_first(), id);
    }
}

/// Round trip: the encoding of any well-formed snapshot opens back to its
/// records, re-ordered by the collection's policy, so the opened snapshot is
/// set-equal to the encoded one. Together with `StructFileDb::new`'s
/// contract this is the decode-of-encode law; and since a snapshot the store
/// wrote is already in policy order, re-opening it reproduces it exactly.
pub proof fn lemma_open_of_encoding<T: HasId + Sortable + Persist>(s: Seq<T::V>)
    requires
        valid_snapshot_fields(snap_fields::<T>(s)),
        unique_ids::<T>(s),
    ensures
        opens_to::<T>(enc_snapshot(snap_fields::<T>(s)), s),
        sort_snap::<T>(s).to_multiset() == s.to_multiset(),
        sorted_snap::<T>(s) ==> sort_snap::<T>(s) == s,
{
    let content = enc_snapshot(snap_fields::<T>(s));
    assert(content.len() >= 2) by {
        if snap_fields::<T>(s).len() == 0 {
            assert(content == seq!['[', ']']);
        }
    }
    lemma_sort_snap_ensures::<T>(s);
    if sorted_snap::<T>(s) {
        lemma_sort_snap_sorted_id::<T>(s);
    }
}

/// Atomicity under a crash: writing the temporary file leaves the real path
/// untouched (the contract of `FileImage::write_tmp`), so when the rename is
/// skipped the real path still holds the encoding of the pre-mutation
/// snapshot; by `StructFileDb::new`'s contract, reopening that content
/// yields the pre-mutation snapshot unchanged, this lemma supplying that a
/// well-formed snapshot is a fixed point of the policy order.
pub proof fn lemma_reopen_after_skipped_rename<T: HasId + Sortable + Persist>(
    snap: Seq<T::V>,
    content: Seq<char>,
)
    requires
        opens_to::<T>(content, snap),
        unique_ids::<T>(snap),
        sorted_snap::<T>(snap),
    ensures
        sort_snap::<T>(snap) == snap,
{
    lemma_sort_snap_sorted_id::<T>(snap);
}


} // verus!
