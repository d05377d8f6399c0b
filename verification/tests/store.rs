//! Single-record operations: insert, update, get, and the unsupported query.

use easydb::database::{Column, Database, DbError, Value};
use easydb::ops::{handle_get, handle_insert, handle_query, handle_update};

fn one_table() -> Database {
    // table 1: (integer, text)
    Database::new(vec![vec![Column::Integer, Column::Text]])
}

fn row(i: i64, s: &str) -> Vec<Value> {
    vec![Value::Integer(i), Value::Text(s.to_string())]
}

#[test]
fn new_store_is_empty() {
    let db = one_table();
    assert_eq!(handle_get(&db, 1, 1), Err(DbError::NotFound));
    assert_eq!(handle_get(&db, 2, 1), Err(DbError::UnknownTable));
    assert_eq!(handle_get(&db, 0, 1), Err(DbError::UnknownTable));
}

#[test]
fn insert_unknown_table() {
    let mut db = one_table();
    assert_eq!(handle_insert(&mut db, 2, row(1, "a")), Err(DbError::UnknownTable));
    // nothing was mutated: the first insert into table 1 still takes id 1
    assert!(matches!(handle_insert(&mut db, 1, row(1, "a")), Ok(easydb::dispatch::Response::Insert(1, 1))));
}

#[test]
fn insert_wrong_value_count() {
    let mut db = one_table();
    assert_eq!(
        handle_insert(&mut db, 1, vec![Value::Integer(1)]),
        Err(DbError::RowShapeMismatch)
    );
    // the row count is unchanged
    assert_eq!(handle_get(&db, 1, 1), Err(DbError::NotFound));
}

#[test]
fn insert_type_mismatch() {
    let mut db = one_table();
    assert_eq!(
        handle_insert(&mut db, 1, vec![Value::Text("x".to_string()), Value::Text("y".to_string())]),
        Err(DbError::TypeMismatch)
    );
    assert_eq!(
        handle_insert(&mut db, 1, vec![Value::Integer(1), Value::Integer(2)]),
        Err(DbError::TypeMismatch)
    );
    let mut db2 = Database::new(vec![vec![Column::Float]]);
    assert_eq!(
        handle_insert(&mut db2, 1, vec![Value::Integer(3)]),
        Err(DbError::TypeMismatch)
    );
    assert!(handle_insert(&mut db2, 1, vec![Value::Float(1.5f64.to_bits())]).is_ok());
}

#[test]
fn insert_null_anywhere() {
    let mut db = one_table();
    assert!(handle_insert(&mut db, 1, vec![Value::Null, Value::Null]).is_ok());
    match handle_get(&db, 1, 1) {
        Ok(easydb::dispatch::Response::Get(version, values)) => {
            assert_eq!(version, 1);
            assert_eq!(values, vec![Value::Null, Value::Null]);
        },
        other => panic!("unexpected response: {:?}", other),
    }
}

#[test]
fn insert_dangling_foreign_key() {
    // table 1: plain; table 2: one foreign-key column referencing table 1
    let mut db = Database::new(vec![vec![Column::Integer], vec![Column::Foreign(1)]]);
    assert_eq!(
        handle_insert(&mut db, 2, vec![Value::Foreign(1)]),
        Err(DbError::DanglingForeignKey)
    );
    // a foreign-key value in a non-foreign column is a type mismatch
    assert_eq!(
        handle_insert(&mut db, 1, vec![Value::Foreign(1)]),
        Err(DbError::TypeMismatch)
    );
    // a foreign-key column referencing a table that does not exist
    let mut db2 = Database::new(vec![vec![Column::Foreign(9)]]);
    assert_eq!(
        handle_insert(&mut db2, 1, vec![Value::Foreign(1)]),
        Err(DbError::DanglingForeignKey)
    );
    // null is accepted even in a foreign-key column
    assert!(handle_insert(&mut db, 2, vec![Value::Null]).is_ok());
}

#[test]
fn insert_foreign_key_to_existing_row() {
    let mut db = Database::new(vec![vec![Column::Integer], vec![Column::Foreign(1)]]);
    assert!(handle_insert(&mut db, 1, vec![Value::Integer(7)]).is_ok());
    assert!(matches!(
        handle_insert(&mut db, 2, vec![Value::Foreign(1)]),
        Ok(easydb::dispatch::Response::Insert(1, 1))
    ));
}

#[test]
fn insert_then_get() {
    let mut db = one_table();
    let r = handle_insert(&mut db, 1, row(42, "hello"));
    assert!(matches!(r, Ok(easydb::dispatch::Response::Insert(1, 1))));
    match handle_get(&db, 1, 1) {
        Ok(easydb::dispatch::Response::Get(version, values)) => {
            assert_eq!(version, 1);
            assert_eq!(values, row(42, "hello"));
        },
        other => panic!("unexpected response: {:?}", other),
    }
    // identifiers are assigned sequentially
    assert!(matches!(
        handle_insert(&mut db, 1, row(43, "again")),
        Ok(easydb::dispatch::Response::Insert(2, 1))
    ));
}

#[test]
fn update_with_expected_version_zero() {
    let mut db = one_table();
    handle_insert(&mut db, 1, row(1, "a")).unwrap();
    assert!(matches!(
        handle_update(&mut db, 1, 1, 0, row(2, "b")),
        Ok(easydb::dispatch::Response::Update(2))
    ));
    assert!(matches!(
        handle_update(&mut db, 1, 1, 0, row(3, "c")),
        Ok(easydb::dispatch::Response::Update(3))
    ));
    match handle_get(&db, 1, 1) {
        Ok(easydb::dispatch::Response::Get(version, values)) => {
            assert_eq!(version, 3);
            assert_eq!(values, row(3, "c"));
        },
        other => panic!("unexpected response: {:?}", other),
    }
}

#[test]
fn update_version_conflict_leaves_row_unmodified() {
    let mut db = one_table();
    handle_insert(&mut db, 1, row(1, "a")).unwrap();
    assert_eq!(handle_update(&mut db, 1, 1, 5, row(2, "b")), Err(DbError::VersionConflict));
    match handle_get(&db, 1, 1) {
        Ok(easydb::dispatch::Response::Get(version, values)) => {
            assert_eq!(version, 1);
            assert_eq!(values, row(1, "a"));
        },
        other => panic!("unexpected response: {:?}", other),
    }
    // the matching version succeeds
    assert!(matches!(
        handle_update(&mut db, 1, 1, 1, row(2, "b")),
        Ok(easydb::dispatch::Response::Update(2))
    ));
}

#[test]
fn missing_row_reports_not_found() {
    let mut db = one_table();
    handle_insert(&mut db, 1, row(1, "a")).unwrap();
    assert_eq!(handle_get(&db, 1, 7), Err(DbError::NotFound));
    assert_eq!(handle_update(&mut db, 1, 7, 0, row(2, "b")), Err(DbError::NotFound));
    assert_eq!(easydb::cascade::handle_drop(&mut db, 1, 7), Err(DbError::NotFound));
}

#[test]
fn update_validates_before_existence_check() {
    let mut db = one_table();
    // validation errors win over NotFound for a row that does not exist
    assert_eq!(
        handle_update(&mut db, 1, 7, 0, vec![Value::Integer(1)]),
        Err(DbError::RowShapeMismatch)
    );
    assert_eq!(
        handle_update(&mut db, 1, 7, 0, vec![Value::Text("x".to_string()), Value::Null]),
        Err(DbError::TypeMismatch)
    );
}

#[test]
fn query_not_supported() {
    let db = one_table();
    assert_eq!(
        handle_query(&db, 1, 0, easydb::dispatch::OP_EQ, Value::Integer(1)),
        Err(DbError::NotSupported)
    );
}
