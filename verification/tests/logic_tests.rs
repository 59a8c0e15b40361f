//! The pure service logic around the store: text helpers, the codec's
//! primitives, category post-processing, datetime readings and the export
//! filter, exercised with the real date library linked.

use powens_maybe_finance_connector::codec::u64_dec_str;
use powens_maybe_finance_connector::csv::{format_csv_value, TransactionCsv, VecToCsv};
use powens_maybe_finance_connector::db_structs::TransactionExtras;
use powens_maybe_finance_connector::genai::{
    clean_categories, first_part_text, reply_is_category_list, Content, Part,
};
use powens_maybe_finance_connector::order::{key_le_exec, SortKey};
use powens_maybe_finance_connector::powens_api::PowensApi;
use powens_maybe_finance_connector::text::{is_plain_str, str_eq, str_lex_le};
use powens_maybe_finance_connector::transaction::{
    type_of_name, type_str, Transaction, TransactionType,
};
use powens_maybe_finance_connector::transactions_export::{
    latest_last_update_seconds, parse_export_param, try_filter_exportable,
    TransactionsToCsvParams,
};

fn instant(param_text: &str) -> i64 {
    parse_export_param(&TransactionsToCsvParams { last_update: Some(param_text.to_string()) })
        .expect("a readable datetime")
}

fn tx(id: u64, coming: bool, last_update: &str) -> Transaction {
    Transaction {
        id,
        id_account: 1,
        application_date: "2024-01-01".to_string(),
        date: "2024-01-01".to_string(),
        value: "12".to_string(),
        original_wording: "W".to_string(),
        simplified_wording: "W".to_string(),
        stemmed_wording: "w".to_string(),
        wording: "W".to_string(),
        date_scraped: "2024-01-02 00:00:00".to_string(),
        rdate: "2024-01-01".to_string(),
        vdate: Some("2024-01-01".to_string()),
        coming,
        active: true,
        last_update: last_update.to_string(),
        card: "X0000".to_string(),
        type_field: TransactionType::Card,
        formatted_value: "12,00 €".to_string(),
    }
}

#[test]
fn decimal_rendering_is_exact() {
    assert_eq!(u64_dec_str(0), "0");
    assert_eq!(u64_dec_str(7), "7");
    assert_eq!(u64_dec_str(12345), "12345");
    assert_eq!(u64_dec_str(u64::MAX), "18446744073709551615");
}

#[test]
fn text_helpers() {
    assert!(str_eq("même", "même"));
    assert!(!str_eq("a", "b"));
    assert!(str_lex_le("2024-01-01", "2024-01-02"));
    assert!(!str_lex_le("2024-01-02", "2024-01-01"));
    assert!(str_lex_le("abc", "abcd"));
    assert!(is_plain_str("plain text, even accented: é€"));
    assert!(!is_plain_str("with \"quote"));
    assert!(!is_plain_str("with \\ backslash"));
    assert!(!is_plain_str("with \n break"));
}

#[test]
fn identity_keys_sort_descending_and_text_keys_ascending() {
    assert!(key_le_exec(&SortKey::Id(3), &SortKey::Id(1)));
    assert!(!key_le_exec(&SortKey::Id(1), &SortKey::Id(3)));
    assert!(key_le_exec(
        &SortKey::Text("2024-01-01".to_string()),
        &SortKey::Text("2024-01-02".to_string()),
    ));
    assert!(!key_le_exec(
        &SortKey::Text("2024-01-02".to_string()),
        &SortKey::Text("2024-01-01".to_string()),
    ));
}

#[test]
fn transaction_type_codes_round_trip() {
    assert_eq!(type_str(&TransactionType::LoanRepayment), "loan_repayment");
    assert_eq!(type_of_name("deferred_card"), Some(TransactionType::DeferredCard));
    assert_eq!(type_of_name("no_such_type"), None);
}

#[test]
fn group_prefix_is_dropped_from_categories() {
    let cats = vec!["Expenses".to_string(), "Food".to_string(), "Café".to_string()];
    assert_eq!(clean_categories(cats), vec!["Food".to_string(), "Café".to_string()]);
    let cats2 = vec!["Income".to_string()];
    assert_eq!(clean_categories(cats2), Vec::<String>::new());
    let cats3 = vec!["Food".to_string(), "Income".to_string()];
    assert_eq!(clean_categories(cats3), vec!["Food".to_string(), "Income".to_string()]);
    assert_eq!(clean_categories(Vec::new()), Vec::<String>::new());
}

#[test]
fn model_reply_shape() {
    assert!(reply_is_category_list("[\"Food\"]"));
    assert!(reply_is_category_list("[]"));
    assert!(!reply_is_category_list("Food"));
    assert!(!reply_is_category_list(""));

    let content = Content {
        parts: vec![Part { text: "[\"Food\"]".to_string() }],
        role: "model".to_string(),
    };
    assert_eq!(first_part_text(&content), Some("[\"Food\"]".to_string()));
    let empty = Content { parts: vec![], role: "model".to_string() };
    assert_eq!(first_part_text(&empty), None);
}

#[test]
fn datetime_reading_round_trips_and_orders() {
    let a = instant("2024-01-01_08-00-00");
    let b = instant("2024-01-02_08-00-00");
    assert!(b > a);
    // the same instant rendered back through the request-path builder
    let api = PowensApi::new("t".to_string(), "https://x.biapi.pro".to_string());
    assert_eq!(
        api.transactions_request_path(Some(a)).unwrap(),
        "/2.0/users/me/transactions?limit=1000&last_update=2024-01-01 08:00:00",
    );
}

#[test]
fn latest_update_scan_takes_the_newest_and_skips_unreadable() {
    let txs = vec![
        tx(1, false, "2024-01-01 08:00:00"),
        tx(2, false, "unreadable"),
        tx(3, false, "2024-02-01 08:00:00"),
        tx(4, false, "2024-01-15 08:00:00"),
    ];
    let latest = latest_last_update_seconds(&txs).unwrap();
    let expected = instant("2024-02-01_08-00-00");
    assert_eq!(latest, expected);
    assert_eq!(latest_last_update_seconds(&Vec::new()), None);
}

#[test]
fn export_filter_keeps_posted_records_after_the_cutoff() {
    let params = TransactionsToCsvParams { last_update: Some("2024-01-10_00-00-00".to_string()) };
    let cutoff = parse_export_param(&params);
    assert!(cutoff.is_some());
    let txs = vec![
        tx(1, false, "2024-01-01 08:00:00"),
        tx(2, true, "2024-02-01 08:00:00"),
        tx(3, false, "2024-02-01 08:00:00"),
    ];
    let kept = try_filter_exportable(txs, cutoff).unwrap();
    let ids: Vec<u64> = kept.iter().map(|t| t.id).collect();
    assert_eq!(ids, vec![3]);

    // an unreadable update text on a posted record is reported
    let bad = vec![tx(1, false, "unreadable")];
    assert!(try_filter_exportable(bad, cutoff).is_none());

    // with no cutoff only coming records are dropped, unreadable or not
    let txs2 = vec![tx(1, false, "unreadable"), tx(2, true, "2024-02-01 08:00:00")];
    let kept2 = try_filter_exportable(txs2, None).unwrap();
    assert_eq!(kept2.len(), 1);
    assert_eq!(kept2[0].id, 1);

    // an unreadable parameter asks for no cutoff
    let bad_params = TransactionsToCsvParams { last_update: Some("garbage".to_string()) };
    assert_eq!(parse_export_param(&bad_params), None);
    assert_eq!(parse_export_param(&TransactionsToCsvParams { last_update: None }), None);
}

#[test]
fn request_paths_are_exact() {
    let api = PowensApi::new("SECRET-REDACTED".to_string(), "https://x.biapi.pro".to_string());
    assert_eq!(api.accounts_request_path(), "/2.0/users/me/accounts");
    assert_eq!(
        api.transactions_request_path(None).unwrap(),
        "/2.0/users/me/transactions?limit=1000",
    );
    let ts = instant("2024-01-01_08-00-00");
    assert_eq!(
        api.transactions_request_path(Some(ts)).unwrap(),
        "/2.0/users/me/transactions?limit=1000&last_update=2024-01-01 08:00:00",
    );
    assert_eq!(
        api.request_url("/2.0/users/me/accounts"),
        "https://x.biapi.pro/2.0/users/me/accounts",
    );
    assert_eq!(api.token().as_str(), "SECRET-REDACTED");
}

#[test]
fn csv_rendering_is_exact() {
    assert_eq!(format_csv_value("plain"), "plain");
    assert_eq!(format_csv_value("a,b"), "\"a,b\"");

    let mut row = TransactionCsv::from_transaction(&tx(1, false, "2024-01-01 08:00:00"));
    row.set_account("Checking");
    row.set_extras(&TransactionExtras {
        id: 1,
        categories: vec!["Food".to_string(), "Café".to_string()],
        tags: vec!["a".to_string(), "b".to_string()],
    });
    let rows = vec![row];
    assert_eq!(
        rows.to_csv(),
        "date,amount,name,category,tags,account,notes\n2024-01-01,12,W,Café,a|b,Checking,",
    );

    let empty: Vec<TransactionCsv> = vec![];
    assert_eq!(empty.to_csv(), "date,amount,name,category,tags,account,notes");
}
