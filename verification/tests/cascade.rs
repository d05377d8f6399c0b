//! Deletion and its cascade over foreign-key references.

use easydb::cascade::handle_drop;
use easydb::database::{Column, Database, DbError, Value};
use easydb::dispatch::Response;
use easydb::ops::{handle_get, handle_insert, handle_update};

#[test]
fn delete_unknown_table() {
    let mut db = Database::new(vec![vec![Column::Integer]]);
    assert_eq!(handle_drop(&mut db, 2, 1), Err(DbError::UnknownTable));
}

#[test]
fn delete_row_with_no_dependents_removes_only_that_row() {
    let mut db = Database::new(vec![vec![Column::Integer]]);
    handle_insert(&mut db, 1, vec![Value::Integer(1)]).unwrap();
    handle_insert(&mut db, 1, vec![Value::Integer(2)]).unwrap();
    assert_eq!(handle_drop(&mut db, 1, 1), Ok(Response::Drop));
    assert_eq!(handle_get(&db, 1, 1), Err(DbError::NotFound));
    // the other row survives untouched
    match handle_get(&db, 1, 2) {
        Ok(Response::Get(version, values)) => {
            assert_eq!(version, 1);
            assert_eq!(values, vec![Value::Integer(2)]);
        },
        other => panic!("unexpected response: {:?}", other),
    }
}

#[test]
fn delete_already_deleted_row() {
    let mut db = Database::new(vec![vec![Column::Integer]]);
    handle_insert(&mut db, 1, vec![Value::Integer(1)]).unwrap();
    assert_eq!(handle_drop(&mut db, 1, 1), Ok(Response::Drop));
    // the caller-initiated second delete reports NotFound
    assert_eq!(handle_drop(&mut db, 1, 1), Err(DbError::NotFound));
}

#[test]
fn delete_cascades_to_referencing_row() {
    // table 1 (A): integer; table 2 (B): one foreign-key column referencing A
    let mut db = Database::new(vec![vec![Column::Integer], vec![Column::Foreign(1)]]);
    assert!(matches!(
        handle_insert(&mut db, 1, vec![Value::Integer(10)]),
        Ok(Response::Insert(1, 1))
    ));
    assert!(matches!(
        handle_insert(&mut db, 2, vec![Value::Foreign(1)]),
        Ok(Response::Insert(1, 1))
    ));
    assert_eq!(handle_drop(&mut db, 1, 1), Ok(Response::Drop));
    assert_eq!(handle_get(&db, 1, 1), Err(DbError::NotFound));
    assert_eq!(handle_get(&db, 2, 1), Err(DbError::NotFound));
}

#[test]
fn delete_cascades_through_reference_chains() {
    // A <- B <- C: deleting the A row removes the whole chain
    let mut db = Database::new(vec![
        vec![Column::Integer],
        vec![Column::Foreign(1)],
        vec![Column::Foreign(2)],
    ]);
    handle_insert(&mut db, 1, vec![Value::Integer(1)]).unwrap();
    handle_insert(&mut db, 1, vec![Value::Integer(2)]).unwrap();
    handle_insert(&mut db, 2, vec![Value::Foreign(1)]).unwrap();
    handle_insert(&mut db, 2, vec![Value::Foreign(2)]).unwrap();
    handle_insert(&mut db, 3, vec![Value::Foreign(1)]).unwrap();
    assert_eq!(handle_drop(&mut db, 1, 1), Ok(Response::Drop));
    assert_eq!(handle_get(&db, 1, 1), Err(DbError::NotFound));
    assert_eq!(handle_get(&db, 2, 1), Err(DbError::NotFound));
    assert_eq!(handle_get(&db, 3, 1), Err(DbError::NotFound));
    // rows outside the cascade survive
    assert!(handle_get(&db, 1, 2).is_ok());
    assert!(handle_get(&db, 2, 2).is_ok());
}

#[test]
fn delete_survives_reference_cycle() {
    // one table whose rows may reference each other
    let mut db = Database::new(vec![vec![Column::Foreign(1)]]);
    handle_insert(&mut db, 1, vec![Value::Null]).unwrap();
    handle_insert(&mut db, 1, vec![Value::Foreign(1)]).unwrap();
    // close the cycle: row 1 now references row 2
    handle_update(&mut db, 1, 1, 0, vec![Value::Foreign(2)]).unwrap();
    assert_eq!(handle_drop(&mut db, 1, 1), Ok(Response::Drop));
    assert_eq!(handle_get(&db, 1, 1), Err(DbError::NotFound));
    assert_eq!(handle_get(&db, 1, 2), Err(DbError::NotFound));
}

#[test]
fn delete_self_referencing_row() {
    let mut db = Database::new(vec![vec![Column::Foreign(1)]]);
    handle_insert(&mut db, 1, vec![Value::Null]).unwrap();
    handle_update(&mut db, 1, 1, 0, vec![Value::Foreign(1)]).unwrap();
    assert_eq!(handle_drop(&mut db, 1, 1), Ok(Response::Drop));
    assert_eq!(handle_get(&db, 1, 1), Err(DbError::NotFound));
}

#[test]
fn delete_with_mutually_referencing_dependents() {
    // table 2's rows reference the target and each other: one of the two
    // dependents is already gone when the cascade reaches it, which must
    // silently no-op rather than fail the whole delete
    let mut db = Database::new(vec![
        vec![Column::Integer],
        vec![Column::Foreign(1), Column::Foreign(2)],
    ]);
    handle_insert(&mut db, 1, vec![Value::Integer(1)]).unwrap();
    handle_insert(&mut db, 2, vec![Value::Foreign(1), Value::Null]).unwrap();
    handle_insert(&mut db, 2, vec![Value::Foreign(1), Value::Foreign(1)]).unwrap();
    handle_update(&mut db, 2, 1, 0, vec![Value::Foreign(1), Value::Foreign(2)]).unwrap();
    assert_eq!(handle_drop(&mut db, 1, 1), Ok(Response::Drop));
    assert_eq!(handle_get(&db, 1, 1), Err(DbError::NotFound));
    assert_eq!(handle_get(&db, 2, 1), Err(DbError::NotFound));
    assert_eq!(handle_get(&db, 2, 2), Err(DbError::NotFound));
}

#[test]
fn two_tables_example() {
    // table A with no foreign keys; table B with one foreign-key column
    // referencing A. Insert into A, insert into B referencing it, delete the
    // A row: the B row disappears with it.
    let mut db = Database::new(vec![vec![Column::Text], vec![Column::Foreign(1)]]);
    let a1 = handle_insert(&mut db, 1, vec![Value::Text("a".to_string())]);
    assert!(matches!(a1, Ok(Response::Insert(1, 1))));
    let b1 = handle_insert(&mut db, 2, vec![Value::Foreign(1)]);
    assert!(matches!(b1, Ok(Response::Insert(1, 1))));
    assert_eq!(handle_drop(&mut db, 1, 1), Ok(Response::Drop));
    assert_eq!(handle_get(&db, 2, 1), Err(DbError::NotFound));
}
