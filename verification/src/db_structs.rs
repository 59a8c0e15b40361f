//! The collections kept by this service and their record capabilities. The
//! enrichment data attached to a transaction lives here; it is the record
//! kind whose whole life cycle this crate owns.

use vstd::prelude::*;
use crate::codec::{Field, FieldV, FieldValue, FieldValueV};
use crate::db_base::{StructFileDb, DbError, content_of, opens_to, unique_ids};
use crate::order::{KeyView, SortKey};
use crate::record::{HasId, Sortable, Persist};
use crate::sort::sort_snap;
use crate::text::str_eq;
use crate::transaction::Transaction;

verus! {

/// Extra data attached to a transaction to form a complete export row:
/// AI-guessed categories and caller-managed tags, keyed by the identity of
/// the transaction they augment.
#[derive(Debug, PartialEq, Eq)]
pub struct TransactionExtras {
    /// matches the identity of the augmented transaction
    pub id: u64,
    pub categories: Vec<String>,
    pub tags: Vec<String>,
}

/// The mathematical value of a `TransactionExtras`.
pub struct TransactionExtrasV {
    pub id: u64,
    pub categories: Seq<Seq<char>>,
    pub tags: Seq<Seq<char>>,
}

impl View for TransactionExtras {
    type V = TransactionExtrasV;

    open spec fn view(&self) -> TransactionExtrasV {
        TransactionExtrasV {
            id: self.id,
            categories: self.categories.deep_view(),
            tags: self.tags.deep_view(),
        }
    }
}

impl HasId for TransactionExtras {
    open spec fn rid_of(v: TransactionExtrasV) -> u64 {
        v.id
    }

    fn id(&self) -> u64 {
        self.id
    }
}

impl Sortable for TransactionExtras {
    /// An identity-only collection: ordered by identity, newest first.
    open spec fn rkey_of(v: TransactionExtrasV) -> KeyView {
        KeyView::Id(v.id)
    }

    fn sortable_value(&self) -> SortKey {
        SortKey::Id(self.id)
    }
}

/// Copies a list of strings, value for value.
pub fn dup_strings(v: &Vec<String>) -> (r: Vec<String>)
    ensures
        r.deep_view() == v.deep_view(),
        r@.len() == v@.len(),
{
    let r = v.clone();
    proof {
        assert forall|i: int| 0 <= i < v@.len() implies r.deep_view()[i]
            == v.deep_view()[i] by {
            assert(cloned::<String>(v@[i], r@[i]));
            assert(r.deep_view()[i] == r@[i]@);
            assert(v.deep_view()[i] == v@[i]@);
        }
        assert(r.deep_view() =~= v.deep_view());
    }
    r
}

impl Persist for TransactionExtras {
    open spec fn fields_of(v: TransactionExtrasV) -> Seq<FieldV> {
        seq![
            FieldV { name: "id"@, value: FieldValueV::U64(v.id) },
            FieldV { name: "categories"@, value: FieldValueV::StrList(v.categories) },
            FieldV { name: "tags"@, value: FieldValueV::StrList(v.tags) },
        ]
    }

    proof fn fields_injective(a: TransactionExtrasV, b: TransactionExtrasV) {
        let fa = Self::fields_of(a);
        let fb = Self::fields_of(b);
        assert(fa[0] == fb[0]);
        assert(fa[1] == fb[1]);
        assert(fa[2] == fb[2]);
    }

    fn to_fields(&self) -> (r: Vec<Field>)
        ensures
            r.deep_view() == Self::fields_of(self@),
    {
        let r: Vec<Field> = vec![
            Field { name: String::from_str("id"), value: FieldValue::U64(self.id) },
            Field {
                name: String::from_str("categories"),
                value: FieldValue::StrList(dup_strings(&self.categories)),
            },
            Field {
                name: String::from_str("tags"),
                value: FieldValue::StrList(dup_strings(&self.tags)),
            },
        ];
        proof {
            assert(r.deep_view()[0] == r@[0]@);
            assert(r.deep_view()[1] == r@[1]@);
            assert(r.deep_view()[2] == r@[2]@);
            assert(r.deep_view() =~= Self::fields_of(self@));
        }
        r
    }

    fn from_fields(fields: &Vec<Field>) -> (r: Option<Self>)
        ensures
            match r {
                Some(rec) => Self::fields_of(rec@) == fields.deep_view(),
                None => forall|v: TransactionExtrasV| Self::fields_of(v) != fields.deep_view(),
            },
    {
        proof {
            assert(fields.deep_view().len() == fields@.len());
            assert forall|v: TransactionExtrasV| Self::fields_of(v).len() == 3 by {}
        }
        if fields.len() != 3 {
            return Option::None;
        }
        proof {
            assert(fields.deep_view()[0] == fields@[0]@);
            assert(fields.deep_view()[1] == fields@[1]@);
            assert(fields.deep_view()[2] == fields@[2]@);
        }
        if !str_eq(fields[0].name.as_str(), "id") || !str_eq(
            fields[1].name.as_str(),
            "categories",
        ) || !str_eq(fields[2].name.as_str(), "tags") {
            return Option::None;
        }
        let id: u64 = match &fields[0].value {
            FieldValue::U64(n) => *n,
            _ => {
                return Option::None;
            },
        };
        let categories: Vec<String> = match &fields[1].value {
            FieldValue::StrList(items) => dup_strings(items),
            _ => {
                return Option::None;
            },
        };
        let tags: Vec<String> = match &fields[2].value {
            FieldValue::StrList(items) => dup_strings(items),
            _ => {
                return Option::None;
            },
        };
        let rec = TransactionExtras { id, categories, tags };
        proof {
            assert(Self::fields_of(rec@) =~= fields.deep_view());
        }
        Option::Some(rec)
    }

    fn dup(&self) -> (r: Self)
        ensures
            r@ == self@,
    {
        let r = TransactionExtras {
            id: self.id,
            categories: dup_strings(&self.categories),
            tags: dup_strings(&self.tags),
        };
        proof {
            assert(r@ == self@);
        }
        r
    }
}

/// The transactions collection.
pub type TransactionsDb = StructFileDb<Transaction>;

impl StructFileDb<Transaction> {
    /// Opens the transactions collection; the caller reads (or creates) the
    /// backing file at `db/transaction.json` and hands its content over.
    pub fn new_transaction_db(content: Option<&str>) -> (r: Result<TransactionsDb, DbError>)
        ensures
            r matches Ok(db) ==> db.wf() && db.path() == "db/transaction.json"@,
            forall|s0: Seq<<Transaction as View>::V>|
                #[trigger] opens_to::<Transaction>(content_of(content), s0)
                    && unique_ids::<Transaction>(s0) ==> (r matches Ok(db) && db.snap()
                    == sort_snap::<Transaction>(s0)),
            r matches Err(e) ==> e == DbError::Decode && content_of(content).len() > 0,
    {
        StructFileDb::new(String::from_str("db/transaction.json"), content)
    }
}

/// The transaction-extras collection.
pub type TransactionExtrasDb = StructFileDb<TransactionExtras>;

impl StructFileDb<TransactionExtras> {
    /// Opens the transaction-extras collection; the caller reads (or
    /// creates) the backing file at `db/transaction_extras.json` and hands
    /// its content over.
    pub fn new_transaction_extras_db(content: Option<&str>) -> (r: Result<
        TransactionExtrasDb,
        DbError,
    >)
        ensures
            r matches Ok(db) ==> db.wf() && db.path() == "db/transaction_extras.json"@,
            forall|s0: Seq<TransactionExtrasV>|
                #[trigger] opens_to::<TransactionExtras>(content_of(content), s0)
                    && unique_ids::<TransactionExtras>(s0) ==> (r matches Ok(db) && db.snap()
                    == sort_snap::<TransactionExtras>(s0)),
            r matches Err(e) ==> e == DbError::Decode && content_of(content).len() > 0,
    {
        StructFileDb::new(String::from_str("db/transaction_extras.json"), content)
    }
}

} // verus!
