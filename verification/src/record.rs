//! The capabilities a record type must expose to be kept in a persisted
//! collection: an identity, a sort key for the collection's ordering policy,
//! and a field-level encoding for the snapshot codec.

use vstd::prelude::*;
use crate::codec::{Field, FieldV};
use crate::order::{KeyView, SortKey};

verus! {

/// A record with a mandatory identity: the unique key that distinguishes
/// records within one collection.
pub trait HasId: View + Sized {
    /// The identity carried by a record value.
    spec fn rid_of(v: Self::V) -> u64;

    /// Returns the record's identity.
    fn id(&self) -> (r: u64)
        ensures
            r == Self::rid_of(self@),
    ;
}

/// A record with a save-time sort key for the collection's ordering policy.
pub trait Sortable: View + Sized {
    /// The sort key carried by a record value.
    spec fn rkey_of(v: Self::V) -> KeyView;

    /// Returns the record's sort key.
    fn sortable_value(&self) -> (r: SortKey)
        ensures
            r@ == Self::rkey_of(self@),
    ;
}

/// A record that the snapshot codec can lay out as a flat list of named
/// fields and rebuild from one; this stands in for a serialization derive.
pub trait Persist: View + Sized {
    /// The field list carried by a record value.
    spec fn fields_of(v: Self::V) -> Seq<FieldV>;

    /// Two record values with the same field list are the same value.
    proof fn fields_injective(a: Self::V, b: Self::V)
        requires
            Self::fields_of(a) == Self::fields_of(b),
        ensures
            a == b,
    ;

    /// Lays the record out as its field list.
    fn to_fields(&self) -> (r: Vec<Field>)
        ensures
            r.deep_view() == Self::fields_of(self@),
    ;

    /// Rebuilds a record from a field list; returns the record whose field
    /// list is exactly `fields`, and nothing otherwise.
    fn from_fields(fields: &Vec<Field>) -> (r: Option<Self>)
        ensures
            match r {
                Some(rec) => Self::fields_of(rec@) == fields.deep_view(),
                None => forall|v: Self::V| Self::fields_of(v) != fields.deep_view(),
            },
    ;

    /// Returns a record equal in value to this one.
    fn dup(&self) -> (r: Self)
        ensures
            r@ == self@,
    ;
}

} // verus!
