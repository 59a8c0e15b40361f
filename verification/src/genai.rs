//! The pure parts of the AI-categorization job: the shape of the model's
//! reply and the post-processing of the guessed category list. The HTTP call
//! and the JSON of the reply envelope are the caller's work; the caller
//! hands the reply's content back as plain values.

use vstd::prelude::*;
use crate::db_structs::TransactionExtras;
use crate::text::str_eq;

verus! {

/// One text part of a model reply.
pub struct Part {
    pub text: String,
}

/// The content of one reply candidate.
pub struct Content {
    pub parts: Vec<Part>,
    pub role: String,
}

/// Token accounting of a reply.
pub struct UsageMetadata {
    pub prompt_token_count: i64,
    pub candidates_token_count: i64,
    pub total_token_count: i64,
    pub prompt_tokens_details: Vec<PromptTokensDetail>,
    pub candidates_tokens_details: Vec<PromptTokensDetail>,
}

/// Token accounting of one modality.
pub struct PromptTokensDetail {
    pub modality: String,
    pub token_count: i64,
}

/// The text of the first part of a reply's content, which carries the
/// guessed category list.
pub fn first_part_text(content: &Content) -> (r: Option<String>)
    ensures
        match r {
            Some(t) => content.parts@.len() > 0 && t@ == content.parts@[0].text@,
            None => content.parts@.len() == 0,
        },
{
    if content.parts.len() == 0 {
        Option::None
    } else {
        Option::Some(content.parts[0].text.clone())
    }
}

/// The model's reply must be a bracketed list to be read as categories.
pub fn reply_is_category_list(text: &str) -> (r: bool)
    ensures
        r == (text@.len() >= 1 && text@[0] == '[' && text@[text@.len() - 1] == ']'),
{
    let n = text.unicode_len();
    if n == 0 {
        return false;
    }
    text.get_char(0) == '[' && text.get_char(n - 1) == ']'
}

/// Whether the model prefixed the category list with the top-level group
/// word, which is not itself a category.
pub open spec fn has_group_prefix(cats: Seq<Seq<char>>) -> bool {
    cats.len() > 0 && (cats[0] == "Expenses"@ || cats[0] == "Income"@)
}

/// Drops the top-level group word from the front of a guessed category
/// list, if the model returned one; everything else passes through.
pub fn clean_categories(categories: Vec<String>) -> (r: Vec<String>)
    ensures
        r.deep_view() == if has_group_prefix(categories.deep_view()) {
            categories.deep_view().drop_first()
        } else {
            categories.deep_view()
        },
{
    let mut categories = categories;
    proof {
        assert(categories.deep_view().len() == categories@.len());
        assert(categories@.len() > 0 ==> categories.deep_view()[0] == categories@[0]@);
    }
    if categories.len() > 0 && (str_eq(categories[0].as_str(), "Expenses") || str_eq(
        categories[0].as_str(),
        "Income",
    )) {
        let ghost before = categories.deep_view();
        categories.remove(0);
        proof {
            assert(categories.deep_view() =~= before.drop_first());
        }
        categories
    } else {
        categories
    }
}

/// Whether a transaction still needs the enrichment job: it has no extras
/// record yet, or one without categories.
pub fn needs_enrichment(extras: &Option<TransactionExtras>) -> (r: bool)
    ensures
        r == match extras {
            Some(e) => e@.categories.len() == 0,
            None => true,
        },
{
    match extras {
        Option::Some(e) => e.categories.len() == 0,
        Option::None => true,
    }
}

} // verus!
