//! The request dispatcher: one store operation per command, and every error
//! wrapped into an error response.

use easydb::database::{Column, Database, DbError, Value};
use easydb::dispatch::{handle_request, Command, Request, Response, OP_AL};

fn store() -> Database {
    Database::new(vec![vec![Column::Integer], vec![Column::Foreign(1)]])
}

#[test]
fn dispatch_insert_and_get() {
    let mut db = store();
    let resp = handle_request(
        Request { table_id: 1, command: Command::Insert(vec![Value::Integer(5)]) },
        &mut db,
    );
    assert_eq!(resp, Response::Insert(1, 1));
    let resp = handle_request(Request { table_id: 1, command: Command::Get(1) }, &mut db);
    assert_eq!(resp, Response::Get(1, vec![Value::Integer(5)]));
}

#[test]
fn dispatch_update_and_drop() {
    let mut db = store();
    handle_request(
        Request { table_id: 1, command: Command::Insert(vec![Value::Integer(5)]) },
        &mut db,
    );
    let resp = handle_request(
        Request { table_id: 1, command: Command::Update(1, 1, vec![Value::Integer(6)]) },
        &mut db,
    );
    assert_eq!(resp, Response::Update(2));
    let resp = handle_request(Request { table_id: 1, command: Command::Drop(1) }, &mut db);
    assert_eq!(resp, Response::Drop);
    let resp = handle_request(Request { table_id: 1, command: Command::Get(1) }, &mut db);
    assert_eq!(resp, Response::Error(DbError::NotFound));
}

#[test]
fn dispatch_wraps_errors() {
    let mut db = store();
    let resp = handle_request(
        Request { table_id: 9, command: Command::Insert(vec![Value::Integer(5)]) },
        &mut db,
    );
    assert_eq!(resp, Response::Error(DbError::UnknownTable));
    let resp = handle_request(
        Request { table_id: 2, command: Command::Insert(vec![Value::Foreign(3)]) },
        &mut db,
    );
    assert_eq!(resp, Response::Error(DbError::DanglingForeignKey));
}

#[test]
fn dispatch_query_and_exit_not_supported() {
    let mut db = store();
    let resp = handle_request(
        Request { table_id: 1, command: Command::Query(0, OP_AL, Value::Null) },
        &mut db,
    );
    assert_eq!(resp, Response::Error(DbError::NotSupported));
    let resp = handle_request(Request { table_id: 1, command: Command::Exit }, &mut db);
    assert_eq!(resp, Response::Error(DbError::NotSupported));
}
