//! The CSV rendering of the export: one header row, one line per record,
//! values quoted when they hold a comma. Amounts reach this layer already
//! rendered as text; the rendering never computes with them.

use vstd::prelude::*;
use crate::db_structs::TransactionExtras;
use crate::sort::snap_view;
use crate::transaction::Transaction;

verus! {

/// Whether a text holds a comma and must be quoted in a CSV row.
pub open spec fn holds_comma(s: Seq<char>) -> bool {
    exists|i: int| 0 <= i < s.len() && s[i] == ','
}

/// A CSV value: quoted whole when it holds a comma, itself otherwise.
pub open spec fn csv_value(s: Seq<char>) -> Seq<char> {
    if holds_comma(s) {
        seq!['"'] + s + seq!['"']
    } else {
        s
    }
}

/// Renders one CSV value, quoting it when it holds a comma.
pub fn format_csv_value(s: &str) -> (r: String)
    ensures
        r@ == csv_value(s@),
{
    let n = s.unicode_len();
    let mut i: usize = 0;
    let mut found = false;
    while i < n
        invariant
            0 <= i <= n,
            n == s@.len(),
            found == exists|k: int| 0 <= k < i && s@[k] == ',',
        decreases n - i,
    {
        if s.get_char(i) == ',' {
            found = true;
        }
        i = i + 1;
    }
    if found {
        let mut out = String::from_str("\"");
        out.append(s);
        out.append("\"");
        proof {
            reveal_strlit("\"");
            assert("\""@ =~= seq!['"']);
            assert(out@ =~= csv_value(s@));
        }
        out
    } else {
        String::from_str(s)
    }
}

/// A record kind with a CSV rendering: a fixed header row and one row per
/// record.
pub trait ToCsv: View + Sized {
    /// The header row's text.
    spec fn spec_header() -> Seq<char>;

    /// The row a record value renders to.
    spec fn spec_row(v: Self::V) -> Seq<char>;

    /// The header row.
    fn header_row() -> (r: &'static str)
        ensures
            r@ == Self::spec_header(),
    ;

    /// One record's row.
    fn to_csv_row(&self) -> (r: String)
        ensures
            r@ == Self::spec_row(self@),
    ;
}

/// The whole CSV document of a snapshot: the header, then one line per
/// record, in order.
pub open spec fn csv_text<T: ToCsv>(s: Seq<T::V>) -> Seq<char>
    decreases s.len(),
{
    if s.len() == 0 {
        T::spec_header()
    } else {
        csv_text::<T>(s.drop_last()) + seq!['\n'] + T::spec_row(s.last())
    }
}

/// A collection with a CSV rendering.
pub trait VecToCsv {
    /// The document's text.
    spec fn spec_csv(&self) -> Seq<char>;

    /// Renders the whole document.
    fn to_csv(&self) -> (r: String)
        ensures
            r@ == self.spec_csv(),
    ;
}

impl<T: ToCsv> VecToCsv for Vec<T> {
    open spec fn spec_csv(&self) -> Seq<char> {
        csv_text::<T>(snap_view(*self))
    }

    #[verifier::loop_isolation(false)]
    fn to_csv(&self) -> (r: String)
        ensures
            r@ == self.spec_csv(),
    {
        let ghost whole = snap_view(*self);
        let mut out = String::from_str(T::header_row());
        let n = self.len();
        let mut i: usize = 0;
        proof {
            assert(whole.take(0) =~= Seq::<T::V>::empty());
        }
        while i < n
            invariant
                0 <= i <= n,
                out@ == csv_text::<T>(whole.take(i as int)),
            decreases n - i,
        {
            out.append("\n");
            let row = self[i].to_csv_row();
            out.append(row.as_str());
            proof {
                reveal_strlit("\n");
                assert("\n"@ =~= seq!['\n']);
                assert(whole[i as int] == self@[i as int]@);
                assert(whole.take(i + 1).drop_last() =~= whole.take(i as int));
                assert(whole.take(i + 1).last() == whole[i as int]);
                assert(out@ =~= csv_text::<T>(whole.take(i + 1)));
            }
            i = i + 1;
        }
        proof {
            assert(whole.take(n as int) =~= whole);
        }
        out
    }
}

/// One row of the transaction export, every value already text. The caller
/// renders the amount before handing it over and receives the finished rows.
pub struct TransactionCsv {
    pub id: u64,
    pub date: String,
    pub amount: String,
    pub name: String,
    pub category: String,
    pub tags: String,
    pub account: String,
    pub notes: String,
}

/// The mathematical value of a `TransactionCsv`.
pub struct TransactionCsvV {
    pub id: u64,
    pub date: Seq<char>,
    pub amount: Seq<char>,
    pub name: Seq<char>,
    pub category: Seq<char>,
    pub tags: Seq<char>,
    pub account: Seq<char>,
    pub notes: Seq<char>,
}

impl View for TransactionCsv {
    type V = TransactionCsvV;

    open spec fn view(&self) -> TransactionCsvV {
        TransactionCsvV {
            id: self.id,
            date: self.date@,
            amount: self.amount@,
            name: self.name@,
            category: self.category@,
            tags: self.tags@,
            account: self.account@,
            notes: self.notes@,
        }
    }
}

impl TransactionCsv {
    /// Starts a row from a stored transaction: the date, the amount text and
    /// the editable label; the joined columns start empty.
    pub fn from_transaction(t: &Transaction) -> (r: Self)
        ensures
            r@.id == t@.id,
            r@.date == t@.date,
            r@.amount == t@.value,
            r@.name == t@.wording,
            r@.category == Seq::<char>::empty(),
            r@.tags == Seq::<char>::empty(),
            r@.account == Seq::<char>::empty(),
            r@.notes == Seq::<char>::empty(),
    {
        TransactionCsv {
            id: t.id,
            date: t.date.clone(),
            amount: t.value.clone(),
            name: t.wording.clone(),
            category: String::new(),
            tags: String::new(),
            account: String::new(),
            notes: String::new(),
        }
    }

    /// Joins the related account's name into the row.
    pub fn set_account(&mut self, account_name: &str)
        ensures
            final(self)@ == (TransactionCsvV { account: account_name@, ..old(self)@ }),
    {
        self.account = String::from_str(account_name);
    }

    /// Joins the enrichment record into the row: the most specific category,
    /// and the tags separated by a bar.
    pub fn set_extras(&mut self, extras: &TransactionExtras)
        ensures
            final(self)@ == (TransactionCsvV {
                category: if extras@.categories.len() > 0 {
                    extras@.categories.last()
                } else {
                    old(self)@.category
                },
                tags: if extras@.tags.len() > 0 {
                    joined_bar(extras@.tags)
                } else {
                    old(self)@.tags
                },
                ..old(self)@
            }),
    {
        if extras.categories.len() > 0 {
            let last = extras.categories.len() - 1;
            self.category = extras.categories[last].clone();
            proof {
                assert(extras.categories.deep_view()[last as int]
                    == extras.categories@[last as int]@);
            }
        }
        if extras.tags.len() > 0 {
            self.tags = join_bar(&extras.tags);
        }
    }
}

/// Texts joined by a bar.
pub open spec fn joined_bar(items: Seq<Seq<char>>) -> Seq<char>
    decreases items.len(),
{
    if items.len() == 0 {
        Seq::empty()
    } else if items.len() == 1 {
        items[0]
    } else {
        joined_bar(items.drop_last()) + seq!['|'] + items.last()
    }
}

/// Joins texts with a bar between them.
#[verifier::loop_isolation(false)]
pub fn join_bar(items: &Vec<String>) -> (r: String)
    ensures
        r@ == joined_bar(items.deep_view()),
{
    let ghost whole = items.deep_view();
    let n = items.len();
    proof {
        assert(whole.len() == items@.len());
    }
    if n == 0 {
        return String::new();
    }
    let mut out = items[0].clone();
    proof {
        assert(whole[0] == items@[0]@);
        assert(whole.take(1) =~= seq![whole[0]]);
        assert(joined_bar(whole.take(1)) == whole[0]);
    }
    let mut i: usize = 1;
    while i < n
        invariant
            1 <= i <= n,
            out@ == joined_bar(whole.take(i as int)),
        decreases n - i,
    {
        out.append("|");
        out.append(items[i].as_str());
        proof {
            reveal_strlit("|");
            assert("|"@ =~= seq!['|']);
            assert(whole[i as int] == items@[i as int]@);
            assert(whole.take(i + 1).drop_last() =~= whole.take(i as int));
            assert(whole.take(i + 1).last() == whole[i as int]);
            assert(out@ =~= joined_bar(whole.take(i + 1)));
        }
        i = i + 1;
    }
    proof {
        assert(whole.take(n as int) =~= whole);
    }
    out
}

impl ToCsv for TransactionCsv {
    open spec fn spec_header() -> Seq<char> {
        "date,amount,name,category,tags,account,notes"@
    }

    open spec fn spec_row(v: TransactionCsvV) -> Seq<char> {
        v.date + seq![','] + v.amount + seq![','] + csv_value(v.name) + seq![','] + v.category
            + seq![','] + v.tags + seq![','] + v.account + seq![','] + csv_value(v.notes)
    }

    fn header_row() -> (r: &'static str)
        ensures
            r@ == Self::spec_header(),
    {
        "date,amount,name,category,tags,account,notes"
    }

    fn to_csv_row(&self) -> (r: String)
        ensures
            r@ == Self::spec_row(self@),
    {
        let mut out = self.date.clone();
        out.append(",");
        out.append(self.amount.as_str());
        out.append(",");
        let name = format_csv_value(self.name.as_str());
        out.append(name.as_str());
        out.append(",");
        out.append(self.category.as_str());
        out.append(",");
        out.append(self.tags.as_str());
        out.append(",");
        out.append(self.account.as_str());
        out.append(",");
        let notes = format_csv_value(self.notes.as_str());
        out.append(notes.as_str());
        proof {
            reveal_strlit(",");
            assert(","@ =~= seq![',']);
            assert(out@ =~= Self::spec_row(self@));
        }
        out
    }
}

} // verus!
