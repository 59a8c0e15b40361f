//! The persisted-collection store: one backing file path, one in-memory
//! snapshot, identity-keyed upserts, and whole-snapshot persistence. The
//! store computes the exact text a caller must write durably (to the
//! temporary path, then committed by an atomic rename over the real path);
//! the file work itself lives outside this crate.
//!
//! Invariants of a store: within one collection at most one record exists
//! per identity, and the snapshot stands in the order of the collection's
//! policy.

use vstd::prelude::*;
use vstd::pervasive::VecAdditionalExecFns;
use vstd::seq_lib::group_to_multiset_ensures;
use crate::codec::{
    Field, FieldV, valid_snapshot_fields, enc_snapshot, encode_snapshot_text,
    decode_snapshot_text,
};
use crate::record::{HasId, Sortable, Persist};
use crate::sort::{
    snap_view, sorted_snap, sort_snap, sort_records, lemma_sort_snap_ensures,
    lemma_sort_snap_sorted_id,
};

verus! {

/// The error taxonomy of the store.
#[derive(Clone, Copy, Debug, PartialEq, Eq, Structural)]
pub enum DbError {
    /// a create, read, write, flush or rename failed in the caller's file layer
    Filesystem,
    /// stored content does not decode as a snapshot
    Decode,
    /// a snapshot cannot be serialized: some of its text is not plain
    Encode,
    /// the backing file is missing while memory holds records
    Consistency,
}

/// Whether some record of the snapshot carries this identity.
pub open spec fn has_id<T: HasId>(s: Seq<T::V>, id: u64) -> bool {
    exists|i: int| 0 <= i < s.len() && T::rid_of(#[trigger] s[i]) == id
}

/// The index of the record carrying this identity; meaningful when the
/// identity is present and identities are unique.
pub open spec fn id_index<T: HasId>(s: Seq<T::V>, id: u64) -> int {
    choose|i: int| 0 <= i < s.len() && T::rid_of(#[trigger] s[i]) == id
}

/// The record carrying this identity, if any.
pub open spec fn lookup<T: HasId>(s: Seq<T::V>, id: u64) -> Option<T::V> {
    if has_id::<T>(s, id) {
        Option::Some(s[id_index::<T>(s, id)])
    } else {
        Option::None
    }
}

/// At most one record per identity.
pub open spec fn unique_ids<T: HasId>(s: Seq<T::V>) -> bool {
    forall|i: int, j: int|
        0 <= i < j < s.len() ==> T::rid_of(#[trigger] s[i]) != T::rid_of(#[trigger] s[j])
}

/// An upsert before re-ordering: replace the record with the same identity
/// in place, or append.
pub open spec fn upsert_seq<T: HasId>(s: Seq<T::V>, v: T::V) -> Seq<T::V> {
    if has_id::<T>(s, T::rid_of(v)) {
        s.update(id_index::<T>(s, T::rid_of(v)), v)
    } else {
        s.push(v)
    }
}

/// A deletion before re-ordering: remove the record with this identity if
/// present; absence changes nothing.
pub open spec fn delete_seq<T: HasId>(s: Seq<T::V>, id: u64) -> Seq<T::V> {
    if has_id::<T>(s, id) {
        s.remove(id_index::<T>(s, id))
    } else {
        s
    }
}

/// The field lists of a snapshot, in order: what the codec lays out.
pub open spec fn snap_fields<T: Persist>(s: Seq<T::V>) -> Seq<Seq<FieldV>> {
    s.map_values(|v: T::V| T::fields_of(v))
}

/// What a stored text opens to: empty content is the empty snapshot, and
/// any other content is exactly the encoding of the snapshot's field lists.
pub open spec fn opens_to<T: Persist>(content: Seq<char>, s: Seq<T::V>) -> bool {
    if content.len() == 0 {
        s == Seq::<T::V>::empty()
    } else {
        &&& valid_snapshot_fields(snap_fields::<T>(s))
        &&& content == enc_snapshot(snap_fields::<T>(s))
    }
}

/// The characters handed to the store for a backing file's content; a
/// missing file reads as empty content when opening.
pub open spec fn content_of(content: Option<&str>) -> Seq<char> {
    match content {
        Option::Some(s) => s@,
        Option::None => Seq::empty(),
    }
}

/// A permutation of a snapshot with unique identities keeps them unique.
pub proof fn lemma_unique_ids_multiset<T: HasId>(a: Seq<T::V>, b: Seq<T::V>)
    requires
        a.to_multiset() == b.to_multiset(),
        unique_ids::<T>(a),
    ensures
        unique_ids::<T>(b),
{
    broadcast use group_to_multiset_ensures;

    assert forall|i: int, j: int| 0 <= i < j < b.len() implies T::rid_of(#[trigger] b[i])
        != T::rid_of(#[trigger] b[j]) by {
        if T::rid_of(b[i]) == T::rid_of(b[j]) {
            if b[i] == b[j] {
                // the same record value twice: its count is at least two,
                // so the original snapshot holds it twice as well
                assert(b.remove(i).to_multiset() =~= b.to_multiset().remove(b[i]));
                assert(b.remove(i)[j - 1] == b[j]);
                assert(b.remove(i).contains(b[j]));
                assert(b.remove(i).to_multiset().count(b[i]) > 0);
                assert(a.to_multiset().count(b[i]) >= 2);
                assert(a.contains(b[i]));
                let i1 = choose|k: int| 0 <= k < a.len() && a[k] == b[i];
                assert(a.remove(i1).to_multiset() =~= a.to_multiset().remove(a[i1]));
                assert(a.remove(i1).to_multiset().count(b[i]) > 0);
                assert(a.remove(i1).contains(b[i]));
                let i2 = choose|k: int| 0 <= k < a.remove(i1).len() && a.remove(i1)[k] == b[i];
                if i2 < i1 {
                    assert(a[i2] == b[i]);
                    assert(T::rid_of(a[i2]) != T::rid_of(a[i1]));
                } else {
                    assert(a[i2 + 1] == b[i]);
                    assert(T::rid_of(a[i2 + 1]) != T::rid_of(a[i1]));
                }
            } else {
                assert(b.contains(b[i]));
                assert(b.contains(b[j]));
                assert(a.to_multiset().count(b[i]) > 0);
                assert(a.to_multiset().count(b[j]) > 0);
                assert(a.contains(b[i]));
                assert(a.contains(b[j]));
                let i1 = choose|k: int| 0 <= k < a.len() && a[k] == b[i];
                let i2 = choose|k: int| 0 <= k < a.len() && a[k] == b[j];
                assert(i1 != i2);
                assert(T::rid_of(a[i1]) != T::rid_of(a[i2]));
            }
        }
    }
}

/// An upsert keeps identities unique; it touches exactly its own identity.
pub proof fn lemma_upsert_seq_ensures<T: HasId>(s: Seq<T::V>, v: T::V)
    requires
        unique_ids::<T>(s),
    ensures
        unique_ids::<T>(upsert_seq::<T>(s, v)),
        lookup::<T>(upsert_seq::<T>(s, v), T::rid_of(v)) == Option::Some(v),
        forall|id: u64|
            id != T::rid_of(v) ==> lookup::<T>(upsert_seq::<T>(s, v), id) == lookup::<T>(s, id),
        upsert_seq::<T>(s, v).len() == if has_id::<T>(s, T::rid_of(v)) {
            s.len()
        } else {
            s.len() + 1
        },
        upsert_seq::<T>(s, v).to_multiset() == if has_id::<T>(s, T::rid_of(v)) {
            s.to_multiset().remove(s[id_index::<T>(s, T::rid_of(v))]).insert(v)
        } else {
            s.to_multiset().insert(v)
        },
{
    broadcast use group_to_multiset_ensures;

    let t = upsert_seq::<T>(s, v);
    if has_id::<T>(s, T::rid_of(v)) {
        let ix = id_index::<T>(s, T::rid_of(v));
        assert(0 <= ix < s.len() && T::rid_of(s[ix]) == T::rid_of(v));
        assert(t == s.update(ix, v));
        assert(t.len() == s.len());
        assert forall|i: int, j: int| 0 <= i < j < t.len() implies T::rid_of(#[trigger] t[i])
            != T::rid_of(#[trigger] t[j]) by {
            assert(T::rid_of(s[i]) != T::rid_of(s[j]));
        }
        assert(T::rid_of(t[ix]) == T::rid_of(v));
        assert(has_id::<T>(t, T::rid_of(v)));
        let ix2 = id_index::<T>(t, T::rid_of(v));
        assert(0 <= ix2 < t.len() && T::rid_of(t[ix2]) == T::rid_of(v));
        assert(ix2 == ix) by {
            if ix2 != ix {
                assert(T::rid_of(t[ix2]) != T::rid_of(t[ix]));
            }
        }
        assert forall|id: u64| id != T::rid_of(v) implies lookup::<T>(t, id) == lookup::<T>(
            s,
            id,
        ) by {
            assert forall|i: int| 0 <= i < s.len() && i != ix implies t[i] == s[i] by {}
            if has_id::<T>(s, id) {
                let k = id_index::<T>(s, id);
                assert(k != ix);
                assert(T::rid_of(t[k]) == id);
                assert(has_id::<T>(t, id));
                let k2 = id_index::<T>(t, id);
                assert(k2 == k) by {
                    if k2 != k {
                        assert(T::rid_of(t[k2]) != T::rid_of(t[k]));
                    }
                }
            } else {
                if has_id::<T>(t, id) {
                    let k2 = id_index::<T>(t, id);
                    assert(k2 != ix);
                    assert(T::rid_of(s[k2]) == id);
                }
            }
        }
        // the multiset: replacing one record removes it and inserts the new one
        assert(t =~= s.update(ix, v));
        assert(s.remove(ix) =~= t.remove(ix));
        assert(s.remove(ix).to_multiset() =~= s.to_multiset().remove(s[ix]));
        assert(t.remove(ix).to_multiset() =~= t.to_multiset().remove(t[ix]));
        assert(t.to_multiset().contains(t[ix])) by {
            assert(t.contains(t[ix]));
        }
        assert(t.to_multiset() =~= s.to_multiset().remove(s[ix]).insert(v)) by {
            assert(t.to_multiset().remove(t[ix]).insert(t[ix]) =~= t.to_multiset());
        }
    } else {
        assert(t == s.push(v));
        assert forall|i: int, j: int| 0 <= i < j < t.len() implies T::rid_of(#[trigger] t[i])
            != T::rid_of(#[trigger] t[j]) by {
            if j < s.len() {
                assert(T::rid_of(s[i]) != T::rid_of(s[j]));
            } else {
                assert(t[j] == v);
                assert(t[i] == s[i]);
                assert(!(T::rid_of(s[i]) == T::rid_of(v))) by {
                    if T::rid_of(s[i]) == T::rid_of(v) {
                        assert(has_id::<T>(s, T::rid_of(v)));
                    }
                }
            }
        }
        assert(T::rid_of(t[s.len() as int]) == T::rid_of(v));
        assert(has_id::<T>(t, T::rid_of(v)));
        let ix2 = id_index::<T>(t, T::rid_of(v));
        assert(ix2 == s.len()) by {
            if ix2 != s.len() {
                assert(T::rid_of(t[ix2]) != T::rid_of(t[s.len() as int]));
            }
        }
        assert forall|id: u64| id != T::rid_of(v) implies lookup::<T>(t, id) == lookup::<T>(
            s,
            id,
        ) by {
            if has_id::<T>(s, id) {
                let k = id_index::<T>(s, id);
                assert(T::rid_of(t[k]) == id);
                assert(has_id::<T>(t, id));
                let k2 = id_index::<T>(t, id);
                assert(k2 < s.len()) by {
                    if k2 == s.len() {
                        assert(T::rid_of(t[k2]) == T::rid_of(v));
                    }
                }
                assert(k2 == k) by {
                    if k2 != k {
                        assert(T::rid_of(s[k2]) != T::rid_of(s[k]));
                    }
                }
            } else {
                if has_id::<T>(t, id) {
                    let k2 = id_index::<T>(t, id);
                    assert(k2 < s.len()) by {
                        if k2 == s.len() {
                            assert(T::rid_of(t[k2]) == T::rid_of(v));
                        }
                    }
                    assert(T::rid_of(s[k2]) == id);
                }
            }
        }
        assert(t.to_multiset() =~= s.to_multiset().insert(v));
    }
}

/// A deletion keeps identities unique; it touches exactly its own identity.
pub proof fn lemma_delete_seq_ensures<T: HasId>(s: Seq<T::V>, id: u64)
    requires
        unique_ids::<T>(s),
    ensures
        unique_ids::<T>(delete_seq::<T>(s, id)),
        lookup::<T>(delete_seq::<T>(s, id), id) == Option::<T::V>::None,
        forall|id2: u64|
            id2 != id ==> lookup::<T>(delete_seq::<T>(s, id), id2) == lookup::<T>(s, id2),
        delete_seq::<T>(s, id).len() == if has_id::<T>(s, id) {
            s.len() - 1
        } else {
            s.len() as int
        },
        has_id::<T>(s, id) ==> delete_seq::<T>(s, id).to_multiset() == s.to_multiset().remove(
            s[id_index::<T>(s, id)],
        ),
{
    broadcast use group_to_multiset_ensures;

    let t = delete_seq::<T>(s, id);
    if has_id::<T>(s, id) {
        let ix = id_index::<T>(s, id);
        assert(0 <= ix < s.len() && T::rid_of(s[ix]) == id);
        assert(t == s.remove(ix));
        assert(t.to_multiset() =~= s.to_multiset().remove(s[ix]));
        assert forall|i: int| 0 <= i < t.len() implies #[trigger] t[i] == (if i < ix {
            s[i]
        } else {
            s[i + 1]
        }) by {}
        assert forall|i: int, j: int| 0 <= i < j < t.len() implies T::rid_of(#[trigger] t[i])
            != T::rid_of(#[trigger] t[j]) by {}
        assert(!has_id::<T>(t, id)) by {
            if has_id::<T>(t, id) {
                let k = id_index::<T>(t, id);
                if k < ix {
                    assert(T::rid_of(s[k]) == T::rid_of(s[ix]));
                } else {
                    assert(T::rid_of(s[k + 1]) == T::rid_of(s[ix]));
                }
            }
        }
        assert forall|id2: u64| id2 != id implies lookup::<T>(t, id2) == lookup::<T>(
            s,
            id2,
        ) by {
            if has_id::<T>(s, id2) {
                let k = id_index::<T>(s, id2);
                assert(k != ix);
                if k < ix {
                    assert(T::rid_of(t[k]) == id2);
                } else {
                    assert(t[k - 1] == s[k]);
                    assert(T::rid_of(t[k - 1]) == id2);
                }
                assert(has_id::<T>(t, id2));
                let k2 = id_index::<T>(t, id2);
                let korig: int = if k2 < ix { k2 } else { k2 + 1 };
                assert(T::rid_of(s[korig]) == id2);
                assert(korig == k) by {
                    if korig != k {
                        assert(T::rid_of(s[korig]) != T::rid_of(s[k]));
                    }
                }
                assert(lookup::<T>(t, id2) == Option::Some(t[k2]));
                assert(t[k2] == s[k]);
            } else {
                if has_id::<T>(t, id2) {
                    let k2 = id_index::<T>(t, id2);
                    let korig: int = if k2 < ix { k2 } else { k2 + 1 };
                    assert(T::rid_of(s[korig]) == id2);
                }
            }
        }
    } else {
        assert(t == s);
        assert(!has_id::<T>(t, id));
    }
}

/// A durable, identity-indexed collection: one backing file path, one
/// in-memory snapshot. Mutations re-apply the ordering policy and return
/// the exact text to persist with an atomic replace.
pub struct StructFileDb<T> {
    file_path: String,
    data: Vec<T>,
}

impl<T: HasId + Sortable + Persist> StructFileDb<T> {
    /// The snapshot as a value sequence.
    pub closed spec fn snap(&self) -> Seq<T::V> {
        snap_view(self.data)
    }

    /// The backing file path.
    pub closed spec fn path(&self) -> Seq<char> {
        self.file_path@
    }

    /// Well-formed: unique identities, policy order.
    pub open spec fn wf(&self) -> bool {
        &&& unique_ids::<T>(self.snap())
        &&& sorted_snap::<T>(self.snap())
    }

    /// Opens a store from the backing file's content: `None` stands for a
    /// file that did not exist (the caller creates it empty), empty content
    /// is the empty snapshot, and any other content must decode fully.
    /// Decoding re-derives the policy order and refuses duplicate
    /// identities.
    pub fn new(file_path: String, content: Option<&str>) -> (r: Result<Self, DbError>)
        ensures
            r matches Ok(db) ==> {
                &&& db.wf()
                &&& db.path() == file_path@
                &&& exists|s0: Seq<T::V>|
                    {
                        &&& #[trigger] opens_to::<T>(content_of(content), s0)
                        &&& unique_ids::<T>(s0)
                        &&& db.snap() == sort_snap::<T>(s0)
                    }
            },
            forall|s0: Seq<T::V>|
                #[trigger] opens_to::<T>(content_of(content), s0) && unique_ids::<T>(s0) ==> (
                r matches Ok(db) && db.snap() == sort_snap::<T>(s0)),
            r matches Err(e) ==> e == DbError::Decode && content_of(content).len() > 0,
    {
        match content {
            Option::None => {
                let db = StructFileDb { file_path, data: Vec::<T>::new() };
                proof {
                    lemma_open_empty::<T>(db.snap());
                    assert(content_of(content) =~= Seq::<char>::empty());
                    assert(opens_to::<T>(content_of(content), db.snap()));
                    assert forall|s0: Seq<T::V>|
                        #[trigger] opens_to::<T>(content_of(content), s0) && unique_ids::<T>(
                            s0,
                        ) implies db.snap() == sort_snap::<T>(s0) by {
                        assert(opens_to::<T>(Seq::<char>::empty(), s0));
                    }
                }
                Ok(db)
            },
            Option::Some(text) => {
                if text.unicode_len() == 0 {
                    let db = StructFileDb { file_path, data: Vec::<T>::new() };
                    proof {
                        lemma_open_empty::<T>(db.snap());
                        assert(content_of(content) =~= Seq::<char>::empty());
                        assert(opens_to::<T>(content_of(content), db.snap()));
                        assert forall|s0: Seq<T::V>|
                            #[trigger] opens_to::<T>(content_of(content), s0) && unique_ids::<T>(
                                s0,
                            ) implies db.snap() == sort_snap::<T>(s0) by {
                            assert(opens_to::<T>(Seq::<char>::empty(), s0));
                        }
                    }
                    Ok(db)
                } else {
                    match decode_records::<T>(text) {
                        Ok(mut recs) => {
                            let ghost s0 = snap_view(recs);
                            sort_records(&mut recs);
                            let db = StructFileDb { file_path, data: recs };
                            proof {
                                lemma_sort_snap_ensures::<T>(s0);
                                lemma_unique_ids_multiset::<T>(s0, db.snap());
                                assert(content_of(content) == text@);
                                assert(opens_to::<T>(content_of(content), s0));
                                assert forall|s1: Seq<T::V>|
                                    #[trigger] opens_to::<T>(content_of(content), s1)
                                        && unique_ids::<T>(s1) implies db.snap()
                                    == sort_snap::<T>(s1) by {
                                    assert(opens_to::<T>(text@, s1));
                                }
                            }
                            Ok(db)
                        },
                        Err(e) => {
                            proof {
                                assert forall|s1: Seq<T::V>|
                                    !(#[trigger] opens_to::<T>(content_of(content), s1)
                                        && unique_ids::<T>(s1)) by {
                                    if opens_to::<T>(content_of(content), s1) && unique_ids::<T>(
                                        s1,
                                    ) {
                                        assert(opens_to::<T>(text@, s1));
                                    }
                                }
                            }
                            Err(e)
                        },
                    }
                }
            },
        }
    }

    /// Returns an independent copy of the snapshot.
    pub fn data(&self) -> (r: Vec<T>)
        ensures
            snap_view(r) == self.snap(),
    {
        dup_records(&self.data)
    }

    /// True exactly when the snapshot holds no records.
    pub fn is_data_empty(&self) -> (r: bool)
        ensures
            r == (self.snap().len() == 0),
    {
        self.data.len() == 0
    }

    /// A linear scan for the record whose identity equals `id`.
    pub fn find_by_id(&self, id: u64) -> (r: Option<T>)
        requires
            self.wf(),
        ensures
            match r {
                Option::Some(rec) => lookup::<T>(self.snap(), id) == Option::Some(rec@),
                Option::None => lookup::<T>(self.snap(), id) is None,
            },
    {
        match find_index(&self.data, id) {
            Option::Some(i) => {
                let rec = self.data[i].dup();
                proof {
                    let ix = id_index::<T>(self.snap(), id);
                    assert(has_id::<T>(self.snap(), id));
                    assert(ix == i) by {
                        if ix != i {
                            assert(T::rid_of(self.snap()[ix]) != T::rid_of(
                                self.snap()[i as int],
                            ));
                        }
                    }
                }
                Option::Some(rec)
            },
            Option::None => Option::None,
        }
    }

    /// Replaces the record with the same identity in place, or appends;
    /// re-applies the ordering policy and returns the snapshot text to
    /// persist. The snapshot is updated even when encoding fails.
    pub fn upsert(&mut self, rec: T) -> (r: Result<String, DbError>)
        requires
            old(self).wf(),
        ensures
            final(self).wf(),
            final(self).path() == old(self).path(),
            final(self).snap() == sort_snap::<T>(upsert_seq::<T>(old(self).snap(), rec@)),
            match r {
                Ok(text) => valid_snapshot_fields(snap_fields::<T>(final(self).snap()))
                    && text@ == enc_snapshot(snap_fields::<T>(final(self).snap())),
                Err(e) => e == DbError::Encode && !valid_snapshot_fields(
                    snap_fields::<T>(final(self).snap()),
                ),
            },
    {
        let ghost s = self.snap();
        let ghost v = rec@;
        let id = rec.id();
        match find_index(&self.data, id) {
            Option::Some(i) => {
                self.data.set(i, rec);
                proof {
                    let ix = id_index::<T>(s, id);
                    assert(has_id::<T>(s, id));
                    assert(ix == i) by {
                        if ix != i {
                            assert(T::rid_of(s[ix]) != T::rid_of(s[i as int]));
                        }
                    }
                    assert(self.snap() =~= s.update(i as int, v));
                    assert(self.snap() == upsert_seq::<T>(s, v));
                }
            },
            Option::None => {
                self.data.push(rec);
                proof {
                    assert(self.snap() =~= s.push(v));
                    assert(self.snap() == upsert_seq::<T>(s, v));
                }
            },
        }
        proof {
            lemma_upsert_seq_ensures::<T>(s, v);
        }
        self.sort_and_encode()
    }

    /// Removes the record with this identity if present (absence is not an
    /// error); re-applies the ordering policy and returns the snapshot text
    /// to persist.
    pub fn delete_by_id(&mut self, id: u64) -> (r: Result<String, DbError>)
        requires
            old(self).wf(),
        ensures
            final(self).wf(),
            final(self).path() == old(self).path(),
            final(self).snap() == sort_snap::<T>(delete_seq::<T>(old(self).snap(), id)),
            match r {
                Ok(text) => valid_snapshot_fields(snap_fields::<T>(final(self).snap()))
                    && text@ == enc_snapshot(snap_fields::<T>(final(self).snap())),
                Err(e) => e == DbError::Encode && !valid_snapshot_fields(
                    snap_fields::<T>(final(self).snap()),
                ),
            },
    {
        let ghost s = self.snap();
        match find_index(&self.data, id) {
            Option::Some(i) => {
                self.data.remove(i);
                proof {
                    let ix = id_index::<T>(s, id);
                    assert(has_id::<T>(s, id));
                    assert(ix == i) by {
                        if ix != i {
                            assert(T::rid_of(s[ix]) != T::rid_of(s[i as int]));
                        }
                    }
                    assert(self.snap() =~= s.remove(i as int));
                    assert(self.snap() == delete_seq::<T>(s, id));
                }
            },
            Option::None => {
                proof {
                    assert(self.snap() == delete_seq::<T>(s, id));
                }
            },
        }
        proof {
            lemma_delete_seq_ensures::<T>(s, id);
        }
        self.sort_and_encode()
    }

    /// Bulk-replaces the whole snapshot (first-time seeding); re-applies the
    /// ordering policy and returns the snapshot text to persist. The given
    /// records must respect the one-record-per-identity invariant.
    pub fn save(&mut self, records: Vec<T>) -> (r: Result<String, DbError>)
        requires
            unique_ids::<T>(snap_view(records)),
        ensures
            final(self).wf(),
            final(self).path() == old(self).path(),
            final(self).snap() == sort_snap::<T>(snap_view(records)),
            match r {
                Ok(text) => valid_snapshot_fields(snap_fields::<T>(final(self).snap()))
                    && text@ == enc_snapshot(snap_fields::<T>(final(self).snap())),
                Err(e) => e == DbError::Encode && !valid_snapshot_fields(
                    snap_fields::<T>(final(self).snap()),
                ),
            },
    {
        self.data = records;
        self.sort_and_encode()
    }

    /// Re-reads the backing file: `None` stands for a missing file, which is
    /// a successful no-op when memory is empty and a consistency error (a
    /// signal of external tampering) otherwise, with memory untouched.
    /// Decode failures also leave memory untouched.
    pub fn reload(&mut self, content: Option<&str>) -> (r: Result<(), DbError>)
        requires
            old(self).wf(),
        ensures
            final(self).wf(),
            final(self).path() == old(self).path(),
            match content {
                Option::None => if old(self).snap().len() == 0 {
                    r is Ok && final(self).snap() == old(self).snap()
                } else {
                    r == Result::<(), DbError>::Err(DbError::Consistency) && final(self).snap()
                        == old(self).snap()
                },
                Option::Some(text) => {
                    &&& (r matches Ok(u) ==> exists|s0: Seq<T::V>|
                        {
                            &&& #[trigger] opens_to::<T>(text@, s0)
                            &&& unique_ids::<T>(s0)
                            &&& final(self).snap() == sort_snap::<T>(s0)
                        })
                    &&& (forall|s0: Seq<T::V>|
                        #[trigger] opens_to::<T>(text@, s0) && unique_ids::<T>(s0) ==> (
                        r is Ok && final(self).snap() == sort_snap::<T>(s0)))
                    &&& (r matches Err(e) ==> e == DbError::Decode && final(self).snap()
                        == old(self).snap() && text@.len() > 0)
                },
            },
    {
        match content {
            Option::None => {
                if self.data.len() == 0 {
                    Ok(())
                } else {
                    Err(DbError::Consistency)
                }
            },
            Option::Some(text) => {
                if text.unicode_len() == 0 {
                    self.data = Vec::<T>::new();
                    proof {
                        lemma_open_empty::<T>(self.snap());
                        assert(opens_to::<T>(text@, self.snap()));
                        assert forall|s0: Seq<T::V>|
                            #[trigger] opens_to::<T>(text@, s0) && unique_ids::<T>(
                                s0,
                            ) implies self.snap() == sort_snap::<T>(s0) by {
                            assert(opens_to::<T>(Seq::<char>::empty(), s0));
                        }
                    }
                    Ok(())
                } else {
                    match decode_records::<T>(text) {
                        Ok(mut recs) => {
                            let ghost s0 = snap_view(recs);
                            sort_records(&mut recs);
                            self.data = recs;
                            proof {
                                lemma_sort_snap_ensures::<T>(s0);
                                lemma_unique_ids_multiset::<T>(s0, self.snap());
                            }
                            Ok(())
                        },
                        Err(e) => Err(e),
                    }
                }
            },
        }
    }

    /// The temporary path of the atomic write protocol: the backing path
    /// with the temporary suffix.
    pub fn tmp_path(&self) -> (r: String)
        ensures
            r@ == self.path() + ".tmp"@,
    {
        let mut p = self.file_path.clone();
        p.append(".tmp");
        p
    }

    /// The backing file path.
    pub fn file_path(&self) -> (r: &String)
        ensures
            r@ == self.path(),
    {
        &self.file_path
    }

    /// Re-applies the ordering policy and encodes the snapshot.
    fn sort_and_encode(&mut self) -> (r: Result<String, DbError>)
        requires
            unique_ids::<T>(snap_view(old(self).data)),
        ensures
            final(self).wf(),
            final(self).path() == old(self).path(),
            final(self).snap() == sort_snap::<T>(snap_view(old(self).data)),
            match r {
                Ok(text) => valid_snapshot_fields(snap_fields::<T>(final(self).snap()))
                    && text@ == enc_snapshot(snap_fields::<T>(final(self).snap())),
                Err(e) => e == DbError::Encode && !valid_snapshot_fields(
                    snap_fields::<T>(final(self).snap()),
                ),
            },
    {
        let ghost s = snap_view(self.data);
        sort_records(&mut self.data);
        proof {
            lemma_sort_snap_ensures::<T>(s);
            lemma_unique_ids_multiset::<T>(s, self.snap());
        }
        let fields = fields_of_records(&self.data);
        match encode_snapshot_text(&fields) {
            Option::Some(text) => Ok(text),
            Option::None => Err(DbError::Encode),
        }
    }
}

/// Everything that opens to empty content: the empty snapshot opens from it.
proof fn lemma_open_empty<T: HasId + Sortable + Persist>(snap: Seq<T::V>)
    requires
        snap =~= Seq::<T::V>::empty(),
    ensures
        opens_to::<T>(Seq::empty(), snap),
        unique_ids::<T>(snap),
        sorted_snap::<T>(snap),
        sort_snap::<T>(snap) == snap,
        forall|s0: Seq<T::V>|
            #[trigger] opens_to::<T>(Seq::<char>::empty(), s0) ==> snap == sort_snap::<T>(s0),
{
    lemma_sort_snap_sorted_id::<T>(snap);
    assert forall|s0: Seq<T::V>|
        #[trigger] opens_to::<T>(Seq::<char>::empty(), s0) implies snap == sort_snap::<T>(
        s0,
    ) by {
        assert(s0 == Seq::<T::V>::empty());
        lemma_sort_snap_sorted_id::<T>(s0);
    }
}

/// Finds the index of the record with this identity, scanning linearly.
fn find_index<T: HasId>(data: &Vec<T>, id: u64) -> (r: Option<usize>)
    ensures
        match r {
            Option::Some(i) => i < data@.len() && T::rid_of(snap_view(*data)[i as int]) == id
                && has_id::<T>(snap_view(*data), id),
            Option::None => !has_id::<T>(snap_view(*data), id),
        },
{
    let n = data.len();
    let mut i: usize = 0;
    while i < n
        invariant
            0 <= i <= n,
            n == data@.len(),
            forall|k: int| 0 <= k < i ==> T::rid_of(#[trigger] snap_view(*data)[k]) != id,
        decreases n - i,
    {
        if data[i].id() == id {
            proof {
                assert(snap_view(*data)[i as int] == data@[i as int]@);
            }
            return Option::Some(i);
        }
        proof {
            assert(snap_view(*data)[i as int] == data@[i as int]@);
        }
        i = i + 1;
    }
    Option::None
}

/// Copies every record of a snapshot.
fn dup_records<T: Persist>(data: &Vec<T>) -> (r: Vec<T>)
    ensures
        snap_view(r) == snap_view(*data),
{
    let n = data.len();
    let mut out: Vec<T> = Vec::new();
    let mut i: usize = 0;
    while i < n
        invariant
            0 <= i <= n,
            n == data@.len(),
            out@.len() == i,
            forall|k: int| 0 <= k < i ==> snap_view(out)[k] == snap_view(*data)[k],
        decreases n - i,
    {
        out.push(data[i].dup());
        proof {
            assert(snap_view(out)[i as int] == out@[i as int]@);
            assert(snap_view(*data)[i as int] == data@[i as int]@);
        }
        i = i + 1;
    }
    proof {
        assert(snap_view(out) =~= snap_view(*data));
    }
    out
}

/// Lays every record of a snapshot out as its field list.
fn fields_of_records<T: Persist>(data: &Vec<T>) -> (r: Vec<Vec<Field>>)
    ensures
        r.deep_view() == snap_fields::<T>(snap_view(*data)),
{
    let n = data.len();
    let mut out: Vec<Vec<Field>> = Vec::new();
    let mut i: usize = 0;
    while i < n
        invariant
            0 <= i <= n,
            n == data@.len(),
            out@.len() == i,
            forall|k: int|
                0 <= k < i ==> #[trigger] out.deep_view()[k] == T::fields_of(
                    snap_view(*data)[k],
                ),
        decreases n - i,
    {
        let ghost prev = out@;
        let ghost prev_dv = out.deep_view();
        out.push(data[i].to_fields());
        proof {
            assert(out.deep_view()[i as int] == out@[i as int].deep_view());
            assert(snap_view(*data)[i as int] == data@[i as int]@);
            assert forall|k: int| 0 <= k < i implies #[trigger] out.deep_view()[k] == T::fields_of(
                snap_view(*data)[k],
            ) by {
                assert(out@[k] == prev[k]);
                assert(out.deep_view()[k] == out@[k].deep_view());
                assert(prev_dv[k] == prev[k].deep_view());
            }
        }
        i = i + 1;
    }
    proof {
        assert(out.deep_view() =~= snap_fields::<T>(snap_view(*data)));
    }
    out
}

/// Rebuilds the records of a decoded snapshot text, refusing duplicate
/// identities: exactly the texts some well-formed snapshot encodes to are
/// accepted, and they rebuild that snapshot.
fn decode_records<T: HasId + Sortable + Persist>(text: &str) -> (r: Result<Vec<T>, DbError>)
    requires
        text@.len() > 0,
    ensures
        r matches Ok(recs) ==> {
            &&& unique_ids::<T>(snap_view(recs))
            &&& opens_to::<T>(text@, snap_view(recs))
        },
        forall|s0: Seq<T::V>|
            #[trigger] opens_to::<T>(text@, s0) && unique_ids::<T>(s0) ==> (r matches Ok(recs)
                && snap_view(recs) == s0),
        r matches Err(e) ==> e == DbError::Decode,
{
    match decode_snapshot_text(text) {
        Option::Some(items) => {
            match records_from_fields::<T>(&items) {
                Option::Some(recs) => {
                    if check_unique_ids(&recs) {
                        proof {
                            assert forall|s0: Seq<T::V>|
                                #[trigger] opens_to::<T>(text@, s0) && unique_ids::<T>(
                                    s0,
                                ) implies snap_view(recs) == s0 by {
                                lemma_same_fields_same_records::<T>(snap_view(recs), s0, items.deep_view());
                            }
                        }
                        Ok(recs)
                    } else {
                        proof {
                            assert forall|s0: Seq<T::V>|
                                !(#[trigger] opens_to::<T>(text@, s0) && unique_ids::<T>(
                                    s0,
                                )) by {
                                if opens_to::<T>(text@, s0) && unique_ids::<T>(s0) {
                                    lemma_same_fields_same_records::<T>(
                                        snap_view(recs),
                                        s0,
                                        items.deep_view(),
                                    );
                                }
                            }
                        }
                        Err(DbError::Decode)
                    }
                },
                Option::None => {
                    proof {
                        assert forall|s0: Seq<T::V>|
                            !(#[trigger] opens_to::<T>(text@, s0) && unique_ids::<T>(s0)) by {
                            if opens_to::<T>(text@, s0) && unique_ids::<T>(s0) {
                                assert(snap_fields::<T>(s0) == items.deep_view());
                            }
                        }
                    }
                    Err(DbError::Decode)
                },
            }
        },
        Option::None => {
            proof {
                assert forall|s0: Seq<T::V>|
                    !(#[trigger] opens_to::<T>(text@, s0) && unique_ids::<T>(s0)) by {}
            }
            Err(DbError::Decode)
        },
    }
}

/// Two snapshots with the same field lists are the same snapshot.
proof fn lemma_same_fields_same_records<T: Persist + HasId>(
    a: Seq<T::V>,
    b: Seq<T::V>,
    fields: Seq<Seq<FieldV>>,
)
    requires
        snap_fields::<T>(a) == fields,
        snap_fields::<T>(b) == fields,
    ensures
        a == b,
{
    assert(a.len() == fields.len());
    assert(b.len() == fields.len());
    assert forall|i: int| 0 <= i < a.len() implies a[i] == b[i] by {
        assert(T::fields_of(a[i]) == fields[i]);
        assert(T::fields_of(b[i]) == fields[i]);
        T::fields_injective(a[i], b[i]);
    }
    assert(a =~= b);
}

/// Rebuilds records from decoded field lists: exactly the field-list
/// sequences some snapshot lays out are accepted, rebuilding that snapshot.
fn records_from_fields<T: Persist>(items: &Vec<Vec<Field>>) -> (r: Option<Vec<T>>)
    ensures
        r matches Some(recs) ==> snap_fields::<T>(snap_view(recs)) == items.deep_view(),
        forall|s0: Seq<T::V>|
            #[trigger] snap_fields::<T>(s0) == items.deep_view() ==> r is Some,
{
    let n = items.len();
    proof {
        assert(items.deep_view().len() == items@.len());
    }
    let mut out: Vec<T> = Vec::new();
    let mut i: usize = 0;
    while i < n
        invariant
            0 <= i <= n,
            n == items@.len(),
            items.deep_view().len() == n,
            out@.len() == i,
            forall|k: int|
                0 <= k < i ==> T::fields_of(#[trigger] snap_view(out)[k]) == items.deep_view()[k],
        decreases n - i,
    {
        proof {
            assert(items.deep_view()[i as int] == items@[i as int].deep_view());
        }
        match T::from_fields(&items[i]) {
            Option::Some(rec) => {
                let ghost prev = out@;
                let ghost prev_sv = snap_view(out);
                out.push(rec);
                proof {
                    assert(snap_view(out)[i as int] == out@[i as int]@);
                    assert forall|k: int| 0 <= k < i implies T::fields_of(
                        #[trigger] snap_view(out)[k],
                    ) == items.deep_view()[k] by {
                        assert(out@[k] == prev[k]);
                        assert(snap_view(out)[k] == out@[k]@);
                        assert(prev_sv[k] == prev[k]@);
                    }
                }
                i = i + 1;
            },
            Option::None => {
                proof {
                    assert forall|s0: Seq<T::V>|
                        #[trigger] snap_fields::<T>(s0) != items.deep_view() by {
                        if snap_fields::<T>(s0) == items.deep_view() {
                            assert(T::fields_of(s0[i as int]) == items.deep_view()[i as int]);
                        }
                    }
                }
                return Option::None;
            },
        }
    }
    proof {
        assert(snap_fields::<T>(snap_view(out)) =~= items.deep_view());
    }
    Option::Some(out)
}

/// Decides whether all identities in a snapshot are distinct.
fn check_unique_ids<T: HasId>(data: &Vec<T>) -> (r: bool)
    ensures
        r == unique_ids::<T>(snap_view(*data)),
{
    let n = data.len();
    let mut i: usize = 0;
    while i < n
        invariant
            0 <= i <= n,
            n == data@.len(),
            forall|a: int, b: int|
                0 <= a < b < n && b < i ==> T::rid_of(#[trigger] snap_view(*data)[a]) != T::rid_of(
                    #[trigger] snap_view(*data)[b],
                ),
        decreases n - i,
    {
        let idb = data[i].id();
        proof {
            assert(snap_view(*data)[i as int] == data@[i as int]@);
        }
        let mut a: usize = 0;
        while a < i
            invariant
                0 <= a <= i < n,
                n == data@.len(),
                idb == T::rid_of(snap_view(*data)[i as int]),
                forall|k: int|
                    0 <= k < a ==> T::rid_of(#[trigger] snap_view(*data)[k]) != idb,
            decreases i - a,
        {
            if data[a].id() == idb {
                proof {
                    assert(snap_view(*data)[a as int] == data@[a as int]@);
                }
                return false;
            }
            proof {
                assert(snap_view(*data)[a as int] == data@[a as int]@);
            }
            a = a + 1;
        }
        i = i + 1;
    }
    true
}

} // verus!
