use wty::dict::release::{CacheError, WiktextractDb};

fn rows() -> Vec<(String, Vec<u8>)> {
    vec![
        ("el".to_string(), vec![1, 2, 3]),
        ("en".to_string(), vec![4, 5]),
        ("el".to_string(), vec![6]),
    ]
}

#[test]
fn import_is_idempotent() {
    // Re-importing into an already-populated cache leaves the stored row
    // count unchanged.
    let memory = ":memory:".to_string();
    let mut db = WiktextractDb::create_at(&memory, &rows()).unwrap();
    assert_eq!(db.row_count().unwrap(), 3);
    let imported_again = db.populate(&rows()).unwrap();
    assert!(!imported_again);
    assert_eq!(db.row_count().unwrap(), 3);
    let imported_other = db
        .populate(&vec![("de".to_string(), vec![9, 9])])
        .unwrap();
    assert!(!imported_other);
    assert_eq!(db.row_count().unwrap(), 3);
}

#[test]
fn fetch_returns_one_language_in_storage_order() {
    let memory = ":memory:".to_string();
    let db = WiktextractDb::create_at(&memory, &rows()).unwrap();
    let el = db.fetch_blobs_by_language(&"el".to_string()).unwrap();
    assert_eq!(el, vec![vec![1, 2, 3], vec![6]]);
    let en = db.fetch_blobs_by_language(&"en".to_string()).unwrap();
    assert_eq!(en, vec![vec![4, 5]]);
    let de = db.fetch_blobs_by_language(&"de".to_string()).unwrap();
    assert!(de.is_empty());
}

#[test]
fn unreachable_store_reports_an_error() {
    let bad = "no_such_directory_for_wty_tests/store.db".to_string();
    let r = WiktextractDb::open_at(&bad);
    assert!(matches!(r, Err(CacheError::Store)));
}

#[test]
fn empty_import_leaves_an_empty_store() {
    let memory = ":memory:".to_string();
    let empty: Vec<(String, Vec<u8>)> = vec![];
    let mut db = WiktextractDb::create_at(&memory, &empty).unwrap();
    assert_eq!(db.row_count().unwrap(), 0);
    // A later import may still populate it, exactly once.
    let imported = db.populate(&rows()).unwrap();
    assert!(imported);
    assert_eq!(db.row_count().unwrap(), 3);
}

#[test]
fn db_path_follows_the_edition() {
    let en = wty::lang::Lang::new("en".to_string(), "English".to_string());
    assert_eq!(WiktextractDb::db_path_for(&en), "data/db/wiktextract_en.db");
}
