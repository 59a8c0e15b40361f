//! The bank-transaction record kept by the transactions collection, modeled
//! with plain values: the monetary amount is carried as its decimal text
//! (the store never computes with it), and the transaction type as a closed
//! set of type codes. The mathematical value of a record carries the type as
//! its code text.

use vstd::prelude::*;
use crate::codec::{Field, FieldV, FieldValue, FieldValueV};
use crate::order::{KeyView, SortKey};
use crate::record::{HasId, Sortable, Persist};
use crate::text::str_eq;

verus! {

/// The type of a bank transaction, as the remote aggregation API reports it.
#[derive(Clone, Copy, Debug, PartialEq, Eq, Structural)]
pub enum TransactionType {
    Transfer,
    Order,
    Check,
    Deposit,
    Payback,
    Withdrawal,
    LoanRepayment,
    Bank,
    Card,
    DeferredCard,
    SummaryCard,
    Unknown,
    MarketOrder,
    MarketFee,
    Arbitrage,
    Profit,
    Refund,
    Payout,
    Payment,
    Fee,
}

/// The stored code of a transaction type.
pub open spec fn type_code(t: TransactionType) -> Seq<char> {
    match t {
        TransactionType::Transfer => "transfer"@,
        TransactionType::Order => "order"@,
        TransactionType::Check => "check"@,
        TransactionType::Deposit => "deposit"@,
        TransactionType::Payback => "payback"@,
        TransactionType::Withdrawal => "withdrawal"@,
        TransactionType::LoanRepayment => "loan_repayment"@,
        TransactionType::Bank => "bank"@,
        TransactionType::Card => "card"@,
        TransactionType::DeferredCard => "deferred_card"@,
        TransactionType::SummaryCard => "summary_card"@,
        TransactionType::Unknown => "unknown"@,
        TransactionType::MarketOrder => "market_order"@,
        TransactionType::MarketFee => "market_fee"@,
        TransactionType::Arbitrage => "arbitrage"@,
        TransactionType::Profit => "profit"@,
        TransactionType::Refund => "refund"@,
        TransactionType::Payout => "payout"@,
        TransactionType::Payment => "payment"@,
        TransactionType::Fee => "fee"@,
    }
}

/// Renders a transaction type as its stored code.
pub fn type_str(t: &TransactionType) -> (r: &'static str)
    ensures
        r@ == type_code(*t),
{
    match t {
        TransactionType::Transfer => "transfer",
        TransactionType::Order => "order",
        TransactionType::Check => "check",
        TransactionType::Deposit => "deposit",
        TransactionType::Payback => "payback",
        TransactionType::Withdrawal => "withdrawal",
        TransactionType::LoanRepayment => "loan_repayment",
        TransactionType::Bank => "bank",
        TransactionType::Card => "card",
        TransactionType::DeferredCard => "deferred_card",
        TransactionType::SummaryCard => "summary_card",
        TransactionType::Unknown => "unknown",
        TransactionType::MarketOrder => "market_order",
        TransactionType::MarketFee => "market_fee",
        TransactionType::Arbitrage => "arbitrage",
        TransactionType::Profit => "profit",
        TransactionType::Refund => "refund",
        TransactionType::Payout => "payout",
        TransactionType::Payment => "payment",
        TransactionType::Fee => "fee",
    }
}

/// Reads a stored type code back; exactly the twenty codes are accepted.
pub fn type_of_name(s: &str) -> (r: Option<TransactionType>)
    ensures
        match r {
            Some(t) => type_code(t) == s@,
            None => forall|t: TransactionType| type_code(t) != s@,
        },
{
    if str_eq(s, "transfer") {
        Some(TransactionType::Transfer)
    } else if str_eq(s, "order") {
        Some(TransactionType::Order)
    } else if str_eq(s, "check") {
        Some(TransactionType::Check)
    } else if str_eq(s, "deposit") {
        Some(TransactionType::Deposit)
    } else if str_eq(s, "payback") {
        Some(TransactionType::Payback)
    } else if str_eq(s, "withdrawal") {
        Some(TransactionType::Withdrawal)
    } else if str_eq(s, "loan_repayment") {
        Some(TransactionType::LoanRepayment)
    } else if str_eq(s, "bank") {
        Some(TransactionType::Bank)
    } else if str_eq(s, "card") {
        Some(TransactionType::Card)
    } else if str_eq(s, "deferred_card") {
        Some(TransactionType::DeferredCard)
    } else if str_eq(s, "summary_card") {
        Some(TransactionType::SummaryCard)
    } else if str_eq(s, "unknown") {
        Some(TransactionType::Unknown)
    } else if str_eq(s, "market_order") {
        Some(TransactionType::MarketOrder)
    } else if str_eq(s, "market_fee") {
        Some(TransactionType::MarketFee)
    } else if str_eq(s, "arbitrage") {
        Some(TransactionType::Arbitrage)
    } else if str_eq(s, "profit") {
        Some(TransactionType::Profit)
    } else if str_eq(s, "refund") {
        Some(TransactionType::Refund)
    } else if str_eq(s, "payout") {
        Some(TransactionType::Payout)
    } else if str_eq(s, "payment") {
        Some(TransactionType::Payment)
    } else if str_eq(s, "fee") {
        Some(TransactionType::Fee)
    } else {
        None
    }
}

/// Distinct transaction types have distinct stored codes.
#[verifier::rlimit(100)]
pub proof fn lemma_type_code_injective(a: TransactionType, b: TransactionType)
    requires
        type_code(a) == type_code(b),
    ensures
        a == b,
{
    reveal_strlit("transfer");
    reveal_strlit("order");
    reveal_strlit("check");
    reveal_strlit("deposit");
    reveal_strlit("payback");
    reveal_strlit("withdrawal");
    reveal_strlit("loan_repayment");
    reveal_strlit("bank");
    reveal_strlit("card");
    reveal_strlit("deferred_card");
    reveal_strlit("summary_card");
    reveal_strlit("unknown");
    reveal_strlit("market_order");
    reveal_strlit("market_fee");
    reveal_strlit("arbitrage");
    reveal_strlit("profit");
    reveal_strlit("refund");
    reveal_strlit("payout");
    reveal_strlit("payment");
    reveal_strlit("fee");
    assert("transfer"@.len() == 8);
    assert("order"@.len() == 5);
    assert("check"@.len() == 5);
    assert("deposit"@.len() == 7);
    assert("payback"@.len() == 7);
    assert("withdrawal"@.len() == 10);
    assert("loan_repayment"@.len() == 14);
    assert("bank"@.len() == 4);
    assert("card"@.len() == 4);
    assert("deferred_card"@.len() == 13);
    assert("summary_card"@.len() == 12);
    assert("unknown"@.len() == 7);
    assert("market_order"@.len() == 12);
    assert("market_fee"@.len() == 10);
    assert("arbitrage"@.len() == 9);
    assert("profit"@.len() == 6);
    assert("refund"@.len() == 6);
    assert("payout"@.len() == 6);
    assert("payment"@.len() == 7);
    assert("fee"@.len() == 3);
    assert("order"@[0] == 'o' && "check"@[0] == 'c');
    assert("deposit"@[0] == 'd' && "unknown"@[0] == 'u');
    assert("payback"@[3] == 'b' && "payment"@[3] == 'm');
    assert("bank"@[0] == 'b' && "card"@[0] == 'c');
    assert("summary_card"@[0] == 's' && "market_order"@[0] == 'm');
    assert("withdrawal"@[0] == 'w' && "market_fee"@[0] == 'm');
    assert("profit"@[0] == 'p' && "refund"@[0] == 'r' && "payout"@[0] == 'p');
    assert("profit"@[1] == 'r' && "payout"@[1] == 'a');
}

/// A bank transaction as this service stores it. The amount and every date
/// are carried as text; the store orders and persists them, it never
/// computes with them.
#[derive(Debug, PartialEq, Eq)]
pub struct Transaction {
    /// identity of the transaction
    pub id: u64,
    /// identity of the related account
    pub id_account: u64,
    /// date considered by personal-finance services; can be edited
    pub application_date: String,
    /// date when the transaction is posted to the account
    pub date: String,
    /// value of the transaction, as decimal text
    pub value: String,
    /// full label, as seen on the bank
    pub original_wording: String,
    /// simplified label
    pub simplified_wording: String,
    /// space-separated words stemmed from the original label
    pub stemmed_wording: String,
    /// editable label
    pub wording: String,
    /// date and time when the transaction was seen
    pub date_scraped: String,
    /// date when the transaction order was given
    pub rdate: String,
    /// value date; mostly equals `date`
    pub vdate: Option<String>,
    /// not yet posted to the account
    pub coming: bool,
    /// ignored by personal-finance services when false
    pub active: bool,
    /// last update of the transaction
    pub last_update: String,
    /// card number associated with the transaction
    pub card: String,
    /// type of transaction
    pub type_field: TransactionType,
    /// formatted value with currency symbol
    pub formatted_value: String,
}

/// The mathematical value of a `Transaction`; the type stands as its code.
pub struct TransactionV {
    pub id: u64,
    pub id_account: u64,
    pub application_date: Seq<char>,
    pub date: Seq<char>,
    pub value: Seq<char>,
    pub original_wording: Seq<char>,
    pub simplified_wording: Seq<char>,
    pub stemmed_wording: Seq<char>,
    pub wording: Seq<char>,
    pub date_scraped: Seq<char>,
    pub rdate: Seq<char>,
    pub vdate: Option<Seq<char>>,
    pub coming: bool,
    pub active: bool,
    pub last_update: Seq<char>,
    pub card: Seq<char>,
    pub type_field: TransactionType,
    pub formatted_value: Seq<char>,
}

impl View for Transaction {
    type V = TransactionV;

    open spec fn view(&self) -> TransactionV {
        TransactionV {
            id: self.id,
            id_account: self.id_account,
            application_date: self.application_date@,
            date: self.date@,
            value: self.value@,
            original_wording: self.original_wording@,
            simplified_wording: self.simplified_wording@,
            stemmed_wording: self.stemmed_wording@,
            wording: self.wording@,
            date_scraped: self.date_scraped@,
            rdate: self.rdate@,
            vdate: match &self.vdate {
                Some(s) => Option::Some(s@),
                None => Option::None,
            },
            coming: self.coming,
            active: self.active,
            last_update: self.last_update@,
            card: self.card@,
            type_field: self.type_field,
            formatted_value: self.formatted_value@,
        }
    }
}

impl HasId for Transaction {
    open spec fn rid_of(v: TransactionV) -> u64 {
        v.id
    }

    fn id(&self) -> u64 {
        self.id
    }
}

impl Sortable for Transaction {
    /// A time-series collection: ordered ascending by the posting date.
    open spec fn rkey_of(v: TransactionV) -> KeyView {
        KeyView::Text(v.date)
    }

    fn sortable_value(&self) -> SortKey {
        SortKey::Text(self.date.clone())
    }
}

/// The stored value of an optional text: null when absent.
pub open spec fn opt_text_value(v: Option<Seq<char>>) -> FieldValueV {
    match v {
        Option::Some(s) => FieldValueV::Str(s),
        Option::None => FieldValueV::Null,
    }
}

/// Copies an optional text, value for value.
fn dup_opt_string(v: &Option<String>) -> (r: Option<String>)
    ensures
        match (v, &r) {
            (Some(a), Some(b)) => a@ == b@,
            (None, None) => true,
            _ => false,
        },
{
    match v {
        Some(s) => Some(s.clone()),
        None => None,
    }
}

impl Persist for Transaction {
    open spec fn fields_of(v: TransactionV) -> Seq<FieldV> {
        seq![
            FieldV { name: "id"@, value: FieldValueV::U64(v.id) },
            FieldV { name: "id_account"@, value: FieldValueV::U64(v.id_account) },
            FieldV { name: "application_date"@, value: FieldValueV::Str(v.application_date) },
            FieldV { name: "date"@, value: FieldValueV::Str(v.date) },
            FieldV { name: "value"@, value: FieldValueV::Str(v.value) },
            FieldV { name: "original_wording"@, value: FieldValueV::Str(v.original_wording) },
            FieldV { name: "simplified_wording"@, value: FieldValueV::Str(v.simplified_wording) },
            FieldV { name: "stemmed_wording"@, value: FieldValueV::Str(v.stemmed_wording) },
            FieldV { name: "wording"@, value: FieldValueV::Str(v.wording) },
            FieldV { name: "date_scraped"@, value: FieldValueV::Str(v.date_scraped) },
            FieldV { name: "rdate"@, value: FieldValueV::Str(v.rdate) },
            FieldV { name: "vdate"@, value: opt_text_value(v.vdate) },
            FieldV { name: "coming"@, value: FieldValueV::Bool(v.coming) },
            FieldV { name: "active"@, value: FieldValueV::Bool(v.active) },
            FieldV { name: "last_update"@, value: FieldValueV::Str(v.last_update) },
            FieldV { name: "card"@, value: FieldValueV::Str(v.card) },
            FieldV { name: "type"@, value: FieldValueV::Str(type_code(v.type_field)) },
            FieldV { name: "formatted_value"@, value: FieldValueV::Str(v.formatted_value) },
        ]
    }

    proof fn fields_injective(a: TransactionV, b: TransactionV) {
        let fa = Self::fields_of(a);
        let fb = Self::fields_of(b);
        assert forall|i: int| 0 <= i < 18 implies fa[i] == fb[i] by {}
        assert(a.vdate == b.vdate) by {
            assert(fa[11] == fb[11]);
        }
        assert(a.type_field == b.type_field) by {
            assert(fa[16] == fb[16]);
            lemma_type_code_injective(a.type_field, b.type_field);
        }
    }

    fn to_fields(&self) -> (r: Vec<Field>)
        ensures
            r.deep_view() == Self::fields_of(self@),
    {
        let r: Vec<Field> = vec![
            Field { name: String::from_str("id"), value: FieldValue::U64(self.id) },
            Field {
                name: String::from_str("id_account"),
                value: FieldValue::U64(self.id_account),
            },
            Field {
                name: String::from_str("application_date"),
                value: FieldValue::Str(self.application_date.clone()),
            },
            Field { name: String::from_str("date"), value: FieldValue::Str(self.date.clone()) },
            Field { name: String::from_str("value"), value: FieldValue::Str(self.value.clone()) },
            Field {
                name: String::from_str("original_wording"),
                value: FieldValue::Str(self.original_wording.clone()),
            },
            Field {
                name: String::from_str("simplified_wording"),
                value: FieldValue::Str(self.simplified_wording.clone()),
            },
            Field {
                name: String::from_str("stemmed_wording"),
                value: FieldValue::Str(self.stemmed_wording.clone()),
            },
            Field {
                name: String::from_str("wording"),
                value: FieldValue::Str(self.wording.clone()),
            },
            Field {
                name: String::from_str("date_scraped"),
                value: FieldValue::Str(self.date_scraped.clone()),
            },
            Field { name: String::from_str("rdate"), value: FieldValue::Str(self.rdate.clone()) },
            Field {
                name: String::from_str("vdate"),
                value: match dup_opt_string(&self.vdate) {
                    Some(s) => FieldValue::Str(s),
                    None => FieldValue::Null,
                },
            },
            Field { name: String::from_str("coming"), value: FieldValue::Bool(self.coming) },
            Field { name: String::from_str("active"), value: FieldValue::Bool(self.active) },
            Field {
                name: String::from_str("last_update"),
                value: FieldValue::Str(self.last_update.clone()),
            },
            Field { name: String::from_str("card"), value: FieldValue::Str(self.card.clone()) },
            Field {
                name: String::from_str("type"),
                value: FieldValue::Str(String::from_str(type_str(&self.type_field))),
            },
            Field {
                name: String::from_str("formatted_value"),
                value: FieldValue::Str(self.formatted_value.clone()),
            },
        ];
        proof {
            assert forall|k: int| 0 <= k < 18 implies #[trigger] r.deep_view()[k] == r@[k]@ by {}
            assert(r.deep_view() =~= Self::fields_of(self@));
        }
        r
    }

    fn from_fields(fields: &Vec<Field>) -> (r: Option<Self>)
        ensures
            match r {
                Some(rec) => Self::fields_of(rec@) == fields.deep_view(),
                None => forall|v: TransactionV| Self::fields_of(v) != fields.deep_view(),
            },
    {
        proof {
            assert(fields.deep_view().len() == fields@.len());
            assert forall|v: TransactionV| Self::fields_of(v).len() == 18 by {}
        }
        if fields.len() != 18 {
            return Option::None;
        }
        proof {
            assert forall|k: int| 0 <= k < 18 implies #[trigger] fields.deep_view()[k]
                == fields@[k]@ by {}
        }
        if !str_eq(fields[0].name.as_str(), "id") || !str_eq(
            fields[1].name.as_str(),
            "id_account",
        ) || !str_eq(fields[2].name.as_str(), "application_date") || !str_eq(
            fields[3].name.as_str(),
            "date",
        ) || !str_eq(fields[4].name.as_str(), "value") || !str_eq(
            fields[5].name.as_str(),
            "original_wording",
        ) || !str_eq(fields[6].name.as_str(), "simplified_wording") || !str_eq(
            fields[7].name.as_str(),
            "stemmed_wording",
        ) || !str_eq(fields[8].name.as_str(), "wording") || !str_eq(
            fields[9].name.as_str(),
            "date_scraped",
        ) || !str_eq(fields[10].name.as_str(), "rdate") || !str_eq(
            fields[11].name.as_str(),
            "vdate",
        ) || !str_eq(fields[12].name.as_str(), "coming") || !str_eq(
            fields[13].name.as_str(),
            "active",
        ) || !str_eq(fields[14].name.as_str(), "last_update") || !str_eq(
            fields[15].name.as_str(),
            "card",
        ) || !str_eq(fields[16].name.as_str(), "type") || !str_eq(
            fields[17].name.as_str(),
            "formatted_value",
        ) {
            return Option::None;
        }
        let id: u64 = match &fields[0].value {
            FieldValue::U64(n) => *n,
            _ => {
                return Option::None;
            },
        };
        let id_account: u64 = match &fields[1].value {
            FieldValue::U64(n) => *n,
            _ => {
                return Option::None;
            },
        };
        let application_date: String = match &fields[2].value {
            FieldValue::Str(s) => s.clone(),
            _ => {
                return Option::None;
            },
        };
        let date: String = match &fields[3].value {
            FieldValue::Str(s) => s.clone(),
            _ => {
                return Option::None;
            },
        };
        let value: String = match &fields[4].value {
            FieldValue::Str(s) => s.clone(),
            _ => {
                return Option::None;
            },
        };
        let original_wording: String = match &fields[5].value {
            FieldValue::Str(s) => s.clone(),
            _ => {
                return Option::None;
            },
        };
        let simplified_wording: String = match &fields[6].value {
            FieldValue::Str(s) => s.clone(),
            _ => {
                return Option::None;
            },
        };
        let stemmed_wording: String = match &fields[7].value {
            FieldValue::Str(s) => s.clone(),
            _ => {
                return Option::None;
            },
        };
        let wording: String = match &fields[8].value {
            FieldValue::Str(s) => s.clone(),
            _ => {
                return Option::None;
            },
        };
        let date_scraped: String = match &fields[9].value {
            FieldValue::Str(s) => s.clone(),
            _ => {
                return Option::None;
            },
        };
        let rdate: String = match &fields[10].value {
            FieldValue::Str(s) => s.clone(),
            _ => {
                return Option::None;
            },
        };
        let vdate: Option<String> = match &fields[11].value {
            FieldValue::Str(s) => Some(s.clone()),
            FieldValue::Null => None,
            _ => {
                return Option::None;
            },
        };
        let coming: bool = match &fields[12].value {
            FieldValue::Bool(b) => *b,
            _ => {
                return Option::None;
            },
        };
        let active: bool = match &fields[13].value {
            FieldValue::Bool(b) => *b,
            _ => {
                return Option::None;
            },
        };
        let last_update: String = match &fields[14].value {
            FieldValue::Str(s) => s.clone(),
            _ => {
                return Option::None;
            },
        };
        let card: String = match &fields[15].value {
            FieldValue::Str(s) => s.clone(),
            _ => {
                return Option::None;
            },
        };
        let type_field: TransactionType = match &fields[16].value {
            FieldValue::Str(s) => match type_of_name(s.as_str()) {
                Some(t) => t,
                None => {
                    proof {
                        assert forall|v: TransactionV| Self::fields_of(v)
                            != fields.deep_view() by {
                            if Self::fields_of(v) == fields.deep_view() {
                                assert(Self::fields_of(v)[16] == fields.deep_view()[16]);
                            }
                        }
                    }
                    return Option::None;
                },
            },
            _ => {
                return Option::None;
            },
        };
        let formatted_value: String = match &fields[17].value {
            FieldValue::Str(s) => s.clone(),
            _ => {
                return Option::None;
            },
        };
        let rec = Transaction {
            id,
            id_account,
            application_date,
            date,
            value,
            original_wording,
            simplified_wording,
            stemmed_wording,
            wording,
            date_scraped,
            rdate,
            vdate,
            coming,
            active,
            last_update,
            card,
            type_field,
            formatted_value,
        };
        proof {
            assert(Self::fields_of(rec@) =~= fields.deep_view());
        }
        Option::Some(rec)
    }

    fn dup(&self) -> (r: Self)
        ensures
            r@ == self@,
    {
        let r = Transaction {
            id: self.id,
            id_account: self.id_account,
            application_date: self.application_date.clone(),
            date: self.date.clone(),
            value: self.value.clone(),
            original_wording: self.original_wording.clone(),
            simplified_wording: self.simplified_wording.clone(),
            stemmed_wording: self.stemmed_wording.clone(),
            wording: self.wording.clone(),
            date_scraped: self.date_scraped.clone(),
            rdate: self.rdate.clone(),
            vdate: dup_opt_string(&self.vdate),
            coming: self.coming,
            active: self.active,
            last_update: self.last_update.clone(),
            card: self.card.clone(),
            type_field: self.type_field,
            formatted_value: self.formatted_value.clone(),
        };
        proof {
            assert(r@ == self@);
        }
        r
    }
}

} // verus!
