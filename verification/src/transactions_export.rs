//! The pure side of the transaction export and of the periodic fetch: which
//! records an export keeps, and the newest update instant that bounds the
//! next fetch. The HTTP layer parses its query into `TransactionsToCsvParams`
//! and renders the kept records; both hand plain values across.

use vstd::prelude::*;
use crate::powens_api::{datetime_seconds_of, parse_datetime_seconds, POWENS_DATETIME_FORMAT};
use crate::sort::snap_view;
use crate::record::Persist;
use crate::transaction::{Transaction, TransactionV};

verus! {

/// The query parameters of the export: an optional lower bound on the
/// records' last update, in the export's own datetime format.
pub struct TransactionsToCsvParams {
    pub last_update: Option<String>,
}

/// The datetime format of the export's query parameter and file name.
pub const PARAM_DATETIME_FORMAT: &'static str = "%Y-%m-%d_%H-%M-%S";

/// The cutoff instant a parameter asks for; an unreadable parameter asks
/// for none, as the export ignores it.
pub open spec fn spec_cutoff(p: Option<Seq<char>>) -> Option<i64> {
    match p {
        Option::Some(s) => datetime_seconds_of(s, PARAM_DATETIME_FORMAT@),
        Option::None => Option::None,
    }
}

/// The view of the optional parameter text.
pub open spec fn param_view(p: &TransactionsToCsvParams) -> Option<Seq<char>> {
    match p.last_update {
        Option::Some(ref s) => Option::Some(s@),
        Option::None => Option::None,
    }
}

/// Reads the export's cutoff instant from its query parameters.
pub fn parse_export_param(params: &TransactionsToCsvParams) -> (r: Option<i64>)
    ensures
        r == spec_cutoff(param_view(params)),
{
    match &params.last_update {
        Option::Some(s) => parse_datetime_seconds(s.as_str(), PARAM_DATETIME_FORMAT),
        Option::None => Option::None,
    }
}

/// The newest update instant among the first `i` records, skipping records
/// whose update text does not parse.
pub open spec fn spec_latest(s: Seq<TransactionV>, i: int) -> Option<i64>
    decreases i,
{
    if i <= 0 {
        Option::None
    } else {
        let prev = spec_latest(s, i - 1);
        match datetime_seconds_of(s[i - 1].last_update, POWENS_DATETIME_FORMAT@) {
            Option::Some(ts) => match prev {
                Option::Some(p) => if ts > p {
                    Option::Some(ts)
                } else {
                    Option::Some(p)
                },
                Option::None => Option::Some(ts),
            },
            Option::None => prev,
        }
    }
}

/// The newest update instant of a snapshot: the bound for the next fetch.
pub fn latest_last_update_seconds(transactions: &Vec<Transaction>) -> (r: Option<i64>)
    ensures
        r == spec_latest(snap_view(*transactions), snap_view(*transactions).len() as int),
{
    let n = transactions.len();
    let mut latest: Option<i64> = Option::None;
    let mut i: usize = 0;
    while i < n
        invariant
            0 <= i <= n,
            n == transactions@.len(),
            latest == spec_latest(snap_view(*transactions), i as int),
        decreases n - i,
    {
        proof {
            assert(snap_view(*transactions)[i as int] == transactions@[i as int]@);
        }
        match parse_datetime_seconds(transactions[i].last_update.as_str(), POWENS_DATETIME_FORMAT) {
            Option::Some(ts) => {
                latest = match latest {
                    Option::Some(p) => if ts > p {
                        Option::Some(ts)
                    } else {
                        Option::Some(p)
                    },
                    Option::None => Option::Some(ts),
                };
            },
            Option::None => {},
        }
        i = i + 1;
    }
    latest
}

/// Whether an export under this cutoff keeps a record: posted records only,
/// and under a cutoff only those updated strictly later.
pub open spec fn keeps_record(v: TransactionV, cutoff: Option<i64>) -> bool {
    &&& !v.coming
    &&& match cutoff {
        Option::Some(c) => match datetime_seconds_of(v.last_update, POWENS_DATETIME_FORMAT@) {
            Option::Some(ts) => ts > c,
            Option::None => false,
        },
        Option::None => true,
    }
}

/// The records an export keeps, in snapshot order.
pub open spec fn spec_filter_exportable(s: Seq<TransactionV>, cutoff: Option<i64>) -> Seq<
    TransactionV,
>
    decreases s.len(),
{
    if s.len() == 0 {
        Seq::empty()
    } else {
        let rest = spec_filter_exportable(s.drop_last(), cutoff);
        if keeps_record(s.last(), cutoff) {
            rest.push(s.last())
        } else {
            rest
        }
    }
}

/// Keeps the exportable records. Posted records must carry a readable update
/// text when a cutoff is given: the export reads each one to compare it.
#[verifier::loop_isolation(false)]
pub fn filter_exportable(transactions: Vec<Transaction>, cutoff: Option<i64>) -> (r: Vec<
    Transaction,
>)
    requires
        cutoff is Some ==> forall|i: int|
            0 <= i < snap_view(transactions).len() && !snap_view(transactions)[i].coming
                ==> datetime_seconds_of(
                (#[trigger] snap_view(transactions)[i]).last_update,
                POWENS_DATETIME_FORMAT@,
            ) is Some,
    ensures
        snap_view(r) == spec_filter_exportable(snap_view(transactions), cutoff),
{
    let ghost orig = snap_view(transactions);
    let n = transactions.len();
    let mut out: Vec<Transaction> = Vec::new();
    let mut i: usize = 0;
    proof {
        assert(orig.take(0) =~= Seq::<TransactionV>::empty());
    }
    while i < n
        invariant
            0 <= i <= n,
            snap_view(out) == spec_filter_exportable(orig.take(i as int), cutoff),
        decreases n - i,
    {
        proof {
            assert(orig[i as int] == transactions@[i as int]@);
            assert(orig.take(i + 1).drop_last() =~= orig.take(i as int));
            assert(orig.take(i + 1).last() == orig[i as int]);
        }
        let keep: bool = if transactions[i].coming {
            false
        } else {
            match cutoff {
                Option::Some(c) => {
                    let parsed = parse_datetime_seconds(
                        transactions[i].last_update.as_str(),
                        POWENS_DATETIME_FORMAT,
                    );
                    match parsed {
                        Option::Some(ts) => ts > c,
                        Option::None => false,
                    }
                },
                Option::None => true,
            }
        };
        if keep {
            let ghost prev = out@;
            let ghost prev_sv = snap_view(out);
            out.push(transactions[i].dup());
            proof {
                assert(snap_view(out)[prev.len() as int] == out@[prev.len() as int]@);
                assert forall|k: int| 0 <= k < prev.len() implies snap_view(out)[k]
                    == prev_sv[k] by {
                    assert(out@[k] == prev[k]);
                    assert(snap_view(out)[k] == out@[k]@);
                    assert(prev_sv[k] == prev[k]@);
                }
                assert(snap_view(out) =~= prev_sv.push(orig[i as int]));
            }
        }
        i = i + 1;
    }
    proof {
        assert(orig.take(n as int) =~= orig);
    }
    out
}

/// Keeps the exportable records after checking that every posted record's
/// update text is readable; reports the unreadable snapshot instead of
/// stopping on it.
#[verifier::loop_isolation(false)]
pub fn try_filter_exportable(transactions: Vec<Transaction>, cutoff: Option<i64>) -> (r: Option<
    Vec<Transaction>,
>)
    ensures
        match r {
            Some(kept) => snap_view(kept) == spec_filter_exportable(
                snap_view(transactions),
                cutoff,
            ),
            None => cutoff is Some && exists|i: int|
                0 <= i < snap_view(transactions).len() && !(#[trigger] snap_view(
                    transactions,
                )[i]).coming && datetime_seconds_of(
                    snap_view(transactions)[i].last_update,
                    POWENS_DATETIME_FORMAT@,
                ) is None,
        },
{
    if cutoff.is_some() {
        let n = transactions.len();
        let mut i: usize = 0;
        while i < n
            invariant
                0 <= i <= n,
                n == transactions@.len(),
                forall|k: int|
                    0 <= k < i && !(#[trigger] snap_view(transactions)[k]).coming
                        ==> datetime_seconds_of(
                        snap_view(transactions)[k].last_update,
                        POWENS_DATETIME_FORMAT@,
                    ) is Some,
            decreases n - i,
        {
            proof {
                assert(snap_view(transactions)[i as int] == transactions@[i as int]@);
            }
            if !transactions[i].coming {
                let parsed = parse_datetime_seconds(
                    transactions[i].last_update.as_str(),
                    POWENS_DATETIME_FORMAT,
                );
                if parsed.is_none() {
                    proof {
                        assert(cutoff is Some);
                        assert(!snap_view(transactions)[i as int].coming);
                        assert(datetime_seconds_of(
                            snap_view(transactions)[i as int].last_update,
                            POWENS_DATETIME_FORMAT@,
                        ) is None);
                    }
                    return Option::None;
                }
            }
            i = i + 1;
        }
    }
    Option::Some(filter_exportable(transactions, cutoff))
}

} // verus!
