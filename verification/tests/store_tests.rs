//! The store's caller-visible behavior: identity-keyed upserts, deletions,
//! ordering, persistence round trips, and the atomic replace protocol.

use powens_maybe_finance_connector::db_base::{DbError, StructFileDb};
use powens_maybe_finance_connector::db_structs::TransactionExtras;
use powens_maybe_finance_connector::storage::FileImage;
use powens_maybe_finance_connector::transaction::{Transaction, TransactionType};

fn extras(id: u64, categories: Vec<&str>, tags: Vec<&str>) -> TransactionExtras {
    TransactionExtras {
        id,
        categories: categories.iter().map(|s| s.to_string()).collect(),
        tags: tags.iter().map(|s| s.to_string()).collect(),
    }
}

fn tx(id: u64, date: &str, last_update: &str) -> Transaction {
    Transaction {
        id,
        id_account: 1,
        application_date: date.to_string(),
        date: date.to_string(),
        value: "-20.5".to_string(),
        original_wording: "CARTE X0000 COFFEE".to_string(),
        simplified_wording: "COFFEE".to_string(),
        stemmed_wording: "coffee".to_string(),
        wording: "COFFEE".to_string(),
        date_scraped: "2024-01-03 10:00:00".to_string(),
        rdate: date.to_string(),
        vdate: None,
        coming: false,
        active: true,
        last_update: last_update.to_string(),
        card: "".to_string(),
        type_field: TransactionType::Card,
        formatted_value: "-20,50 €".to_string(),
    }
}

fn open_extras(content: Option<&str>) -> StructFileDb<TransactionExtras> {
    StructFileDb::new("db/transaction_extras.json".to_string(), content).unwrap()
}

#[test]
fn open_missing_file_is_empty() {
    let db = open_extras(None);
    assert!(db.is_data_empty());
    assert_eq!(db.data().len(), 0);
}

#[test]
fn open_zero_byte_file_is_empty_not_an_error() {
    let db = StructFileDb::<TransactionExtras>::new("p".to_string(), Some(""));
    let db = db.unwrap();
    assert!(db.is_data_empty());
}

#[test]
fn find_by_id_reflects_upserts_and_deletes() {
    let mut db = open_extras(None);
    db.upsert(extras(1, vec!["a"], vec![])).unwrap();
    db.upsert(extras(2, vec!["b"], vec![])).unwrap();
    assert_eq!(db.find_by_id(1), Some(extras(1, vec!["a"], vec![])));
    assert_eq!(db.find_by_id(2), Some(extras(2, vec!["b"], vec![])));
    assert_eq!(db.find_by_id(3), None);
    assert_eq!(db.data().len(), 2);

    db.upsert(extras(1, vec!["c"], vec!["t"])).unwrap();
    assert_eq!(db.find_by_id(1), Some(extras(1, vec!["c"], vec!["t"])));
    assert_eq!(db.data().len(), 2);

    db.delete_by_id(2).unwrap();
    assert_eq!(db.find_by_id(2), None);
    assert_eq!(db.data().len(), 1);

    // deleting an absent identity is not an error and changes nothing
    db.delete_by_id(42).unwrap();
    assert_eq!(db.data().len(), 1);
}

#[test]
fn upsert_twice_is_idempotent() {
    let mut once = open_extras(None);
    once.upsert(extras(5, vec!["x"], vec![])).unwrap();
    once.upsert(extras(7, vec!["y"], vec![])).unwrap();

    let mut twice = open_extras(None);
    twice.upsert(extras(5, vec!["x"], vec![])).unwrap();
    twice.upsert(extras(7, vec!["y"], vec![])).unwrap();
    let text_once = twice.upsert(extras(7, vec!["y"], vec![])).unwrap();

    assert_eq!(once.data(), twice.data());
    // and the persisted text is identical too
    let text_base = once.upsert(extras(7, vec!["y"], vec![])).unwrap();
    assert_eq!(text_base, text_once);
}

#[test]
fn identity_descending_order() {
    let mut db = open_extras(None);
    db.upsert(extras(3, vec![], vec![])).unwrap();
    db.upsert(extras(1, vec![], vec![])).unwrap();
    db.upsert(extras(2, vec![], vec![])).unwrap();
    let ids: Vec<u64> = db.data().iter().map(|r| r.id).collect();
    assert_eq!(ids, vec![3, 2, 1]);
}

#[test]
fn domain_date_ascending_order() {
    let mut db =
        StructFileDb::<Transaction>::new("db/transaction.json".to_string(), None).unwrap();
    db.upsert(tx(1, "2024-01-02", "2024-01-02 08:00:00")).unwrap();
    db.upsert(tx(2, "2024-01-01", "2024-01-01 08:00:00")).unwrap();
    let dates: Vec<String> = db.data().iter().map(|t| t.date.clone()).collect();
    assert_eq!(dates, vec!["2024-01-01".to_string(), "2024-01-02".to_string()]);
}

#[test]
fn many_distinct_upserts_all_kept() {
    let mut db = open_extras(None);
    let n: u64 = 50;
    for id in 0..n {
        db.upsert(extras(id, vec![], vec![])).unwrap();
    }
    let data = db.data();
    assert_eq!(data.len() as u64, n);
    for id in 0..n {
        assert!(db.find_by_id(id).is_some());
    }
}

#[test]
fn snapshot_round_trips_through_its_text() {
    let mut db = open_extras(None);
    db.upsert(extras(10, vec!["Food", "Café"], vec!["a|b"])).unwrap();
    let text = db.upsert(extras(4, vec![], vec!["z"])).unwrap();

    let reopened = open_extras(Some(&text));
    assert_eq!(reopened.data(), db.data());
}

#[test]
fn snapshot_text_is_the_exact_canonical_form() {
    let mut db = open_extras(None);
    let text = db.upsert(extras(7, vec!["a"], vec![])).unwrap();
    let expected = "[\n  {\n    \"id\": 7,\n    \"categories\": [\n      \"a\"\n    ],\n    \"tags\": []\n  }\n]";
    assert_eq!(text, expected);
}

#[test]
fn empty_snapshot_text_is_the_empty_array() {
    let mut db = open_extras(None);
    let text = db.save(Vec::new()).unwrap();
    assert_eq!(text, "[]");
}

#[test]
fn corrupt_content_is_a_decode_error() {
    let r = StructFileDb::<TransactionExtras>::new("p".to_string(), Some("not a snapshot"));
    assert!(matches!(r, Err(DbError::Decode)));
    let r2 = StructFileDb::<TransactionExtras>::new("p".to_string(), Some("[]garbage"));
    assert!(matches!(r2, Err(DbError::Decode)));
}

#[test]
fn duplicate_identities_in_content_are_a_decode_error() {
    let mut db = open_extras(None);
    db.upsert(extras(1, vec![], vec![])).unwrap();
    let text = db.upsert(extras(2, vec![], vec![])).unwrap();
    let forged = format!("{}", text).replace("\"id\": 2", "\"id\": 1");
    let r = StructFileDb::<TransactionExtras>::new("p".to_string(), Some(&forged));
    assert!(matches!(r, Err(DbError::Decode)));
}

#[test]
fn unencodable_text_is_an_encode_error() {
    let mut db = open_extras(None);
    let r = db.upsert(extras(1, vec!["with \"quote\""], vec![]));
    assert!(matches!(r, Err(DbError::Encode)));
    let r2 = db.upsert(extras(2, vec!["with\nbreak"], vec![]));
    assert!(matches!(r2, Err(DbError::Encode)));
}

#[test]
fn reload_of_missing_file_with_records_is_a_consistency_error() {
    let mut db = open_extras(None);
    db.upsert(extras(1, vec![], vec![])).unwrap();
    db.upsert(extras(2, vec![], vec![])).unwrap();
    assert_eq!(db.data().len(), 2);

    let r = db.reload(None);
    assert!(matches!(r, Err(DbError::Consistency)));
    // the prior in-memory snapshot is untouched
    assert_eq!(db.data().len(), 2);
    assert!(db.find_by_id(1).is_some());
    assert!(db.find_by_id(2).is_some());
}

#[test]
fn reload_of_missing_file_with_empty_memory_is_a_no_op() {
    let mut db = open_extras(None);
    assert!(db.reload(None).is_ok());
    assert!(db.is_data_empty());
}

#[test]
fn reload_replaces_memory_with_the_file() {
    let mut other = open_extras(None);
    let text = other.upsert(extras(9, vec!["k"], vec![])).unwrap();

    let mut db = open_extras(None);
    db.upsert(extras(1, vec![], vec![])).unwrap();
    db.reload(Some(&text)).unwrap();
    assert_eq!(db.data(), other.data());

    // a failing reload leaves memory untouched
    let r = db.reload(Some("broken"));
    assert!(matches!(r, Err(DbError::Decode)));
    assert_eq!(db.data(), other.data());
}

#[test]
fn skipped_rename_preserves_the_previous_snapshot() {
    let mut db = open_extras(None);
    let text_before = db.upsert(extras(1, vec!["old"], vec![])).unwrap();
    let mut volume = FileImage::with_content(text_before.clone());

    // a mutation whose rename never happens: only the temporary file changes
    let text_after = db.upsert(extras(2, vec!["new"], vec![])).unwrap();
    volume.write_tmp(text_after.clone());
    let durable = volume.read_main().unwrap();
    assert_eq!(durable, text_before);

    let reopened = open_extras(Some(&durable));
    let ids: Vec<u64> = reopened.data().iter().map(|r| r.id).collect();
    assert_eq!(ids, vec![1]);

    // with the rename committed, the new snapshot is durable instead
    volume.commit();
    let durable2 = volume.read_main().unwrap();
    assert_eq!(durable2, text_after);
    let reopened2 = open_extras(Some(&durable2));
    assert_eq!(reopened2.data().len(), 2);
}

#[test]
fn externally_deleted_file_is_observable() {
    let mut volume = FileImage::with_content("[]".to_string());
    volume.delete_main();
    assert!(volume.read_main().is_none());
    let missing = FileImage::missing();
    assert!(missing.read_main().is_none());
}

#[test]
fn save_replaces_the_whole_snapshot() {
    let mut db = open_extras(None);
    db.upsert(extras(1, vec!["x"], vec![])).unwrap();
    db.save(vec![extras(8, vec![], vec![]), extras(6, vec![], vec![])]).unwrap();
    let ids: Vec<u64> = db.data().iter().map(|r| r.id).collect();
    assert_eq!(ids, vec![8, 6]);
    assert_eq!(db.find_by_id(1), None);
}

#[test]
fn tmp_path_is_the_backing_path_with_the_suffix() {
    let db = open_extras(None);
    assert_eq!(db.tmp_path(), "db/transaction_extras.json.tmp");
    assert_eq!(db.file_path().as_str(), "db/transaction_extras.json");
}

#[test]
fn snapshot_copy_does_not_alias_internal_state() {
    let mut db = open_extras(None);
    db.upsert(extras(1, vec!["a"], vec![])).unwrap();
    let mut copy = db.data();
    copy[0].categories.push("mutated".to_string());
    assert_eq!(db.find_by_id(1), Some(extras(1, vec!["a"], vec![])));
}
