//! The per-collection ordering policy: every record exposes a sort key, and
//! the policy is a fixed total order on keys. Identity-only collections use
//! an identity key and are kept newest-identity first; time-series
//! collections use a domain text key (a date) and are kept ascending.

use vstd::prelude::*;
use crate::text::{lex_le, lemma_lex_le_total, lemma_lex_le_trans, str_lex_le};

verus! {

/// The save-time sort key of a record.
pub enum SortKey {
    /// An identity key; such collections are ordered by identity, largest first.
    Id(u64),
    /// A domain text key (for example a settlement date); such collections
    /// are ordered ascending in the lexicographic order of the text.
    Text(String),
}

/// The mathematical value of a `SortKey`.
pub enum KeyView {
    Id(u64),
    Text(Seq<char>),
}

impl View for SortKey {
    type V = KeyView;

    open spec fn view(&self) -> KeyView {
        match self {
            SortKey::Id(n) => KeyView::Id(*n),
            SortKey::Text(s) => KeyView::Text(s@),
        }
    }
}

/// The ordering policy as a total order on key values: identity keys sort
/// descending (newest identity first), text keys sort ascending. The two
/// kinds never meet within one collection; across kinds, identity keys are
/// placed first to keep the order total.
pub open spec fn key_le(a: KeyView, b: KeyView) -> bool {
    match (a, b) {
        (KeyView::Id(x), KeyView::Id(y)) => y <= x,
        (KeyView::Id(_), KeyView::Text(_)) => true,
        (KeyView::Text(_), KeyView::Id(_)) => false,
        (KeyView::Text(s), KeyView::Text(t)) => lex_le(s, t),
    }
}

pub proof fn lemma_key_le_total(a: KeyView, b: KeyView)
    ensures
        key_le(a, b) || key_le(b, a),
{
    if let (KeyView::Text(s), KeyView::Text(t)) = (a, b) {
        lemma_lex_le_total(s, t);
    }
}

pub proof fn lemma_key_le_trans(a: KeyView, b: KeyView, c: KeyView)
    requires
        key_le(a, b),
        key_le(b, c),
    ensures
        key_le(a, c),
{
    if let (KeyView::Text(s), KeyView::Text(t)) = (a, b) {
        if let KeyView::Text(u) = c {
            lemma_lex_le_trans(s, t, u);
        }
    }
}

/// Decides `key_le` on two keys.
pub fn key_le_exec(a: &SortKey, b: &SortKey) -> (r: bool)
    ensures
        r == key_le(a@, b@),
{
    match (a, b) {
        (SortKey::Id(x), SortKey::Id(y)) => *y <= *x,
        (SortKey::Id(_), SortKey::Text(_)) => true,
        (SortKey::Text(_), SortKey::Id(_)) => false,
        (SortKey::Text(s), SortKey::Text(t)) => str_lex_le(s.as_str(), t.as_str()),
    }
}

} // verus!
