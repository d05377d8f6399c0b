//! The request surface: commands, responses, and the dispatcher that maps an
//! inbound operation to the matching store operation.

use vstd::prelude::*;
use crate::cascade::{handle_drop, in_cascade, op_err_drop, rows_sub};
use crate::database::{Database, DbError, Value, db_has_row, db_ri, db_row, db_wf, table_at,
    table_exists};
use crate::ops::{
    handle_get, handle_insert, handle_query, handle_update, insert_post, op_err_get,
    op_err_insert, op_err_update, update_post,
};

verus! {

/// Comparison operator codes declared by the filtered-query operation. The
/// query itself is not supported, so the codes are never interpreted.
pub const OP_AL: u64 = 0;

pub const OP_EQ: u64 = 1;

pub const OP_NE: u64 = 2;

pub const OP_LT: u64 = 3;

pub const OP_GT: u64 = 4;

pub const OP_LE: u64 = 5;

pub const OP_GE: u64 = 6;

/// One inbound operation, without its table identifier.
pub enum Command {
    /// Insert a new row built from these values.
    Insert(Vec<Value>),
    /// Replace row (id) if the expected version (0: unchecked) matches.
    Update(u64, u64, Vec<Value>),
    /// Delete row (id), cascading over foreign-key references.
    Drop(u64),
    /// Read row (id).
    Get(u64),
    /// Filtered query: column index, operator code, comparison value.
    Query(u64, u64, Value),
    /// End of session; never reaches the store.
    Exit,
}

/// One inbound request: the target table and the operation.
pub struct Request {
    pub table_id: u64,
    pub command: Command,
}

/// The response sent back for one request.
#[derive(PartialEq, Debug)]
pub enum Response {
    /// A row was inserted: its identifier and its version (always 1).
    Insert(u64, u64),
    /// A row was updated: its new version.
    Update(u64),
    /// The addressed row was deleted.
    Drop,
    /// A row was read: its version and a copy of its values.
    Get(u64, Vec<Value>),
    /// The operation failed with this error.
    Error(DbError),
}

/// Dispatches one request to the matching store operation and wraps any
/// error code into an error response. The dispatcher itself validates
/// nothing.
pub fn handle_request(request: Request, db: &mut Database) -> (resp: Response)
    requires
        db_wf(*old(db)),
        request.command matches Command::Insert(_) && table_exists(*old(db), request.table_id)
            ==> table_at(*old(db), request.table_id).data@.len() < usize::MAX,
        (match request.command {
            Command::Update(id, _, _) => db_has_row(*old(db), request.table_id, id) ==> db_row(
                *old(db),
                request.table_id,
                id,
            ).version < u64::MAX,
            _ => true,
        }),
    ensures
        db_wf(*final(db)),
        db_ri(*old(db)) ==> db_ri(*final(db)),
        (match request.command {
            Command::Insert(values) => {
                &&& (op_err_insert(*old(db), request.table_id, values@) matches Some(e) ==> resp
                    == Response::Error(e) && *final(db) == *old(db))
                &&& (op_err_insert(*old(db), request.table_id, values@) is None ==> {
                    &&& resp == Response::Insert(
                        (table_at(*old(db), request.table_id).data@.len() + 1) as u64,
                        1,
                    )
                    &&& insert_post(*old(db), *final(db), request.table_id, values)
                })
            },
            Command::Update(id, version, values) => {
                &&& (op_err_update(*old(db), request.table_id, id, version, values@) matches Some(
                    e,
                ) ==> resp == Response::Error(e) && *final(db) == *old(db))
                &&& (op_err_update(*old(db), request.table_id, id, version, values@) is None
                    ==> {
                    &&& resp == Response::Update(
                        (db_row(*old(db), request.table_id, id).version + 1) as u64,
                    )
                    &&& update_post(*old(db), *final(db), request.table_id, id, values)
                })
            },
            Command::Drop(id) => {
                &&& (op_err_drop(*old(db), request.table_id, id) matches Some(e) ==> resp
                    == Response::Error(e) && *final(db) == *old(db))
                &&& (op_err_drop(*old(db), request.table_id, id) is None ==> {
                    &&& resp == Response::Drop
                    &&& rows_sub(*old(db), *final(db))
                    &&& forall|t2: u64, r2: u64|
                        db_has_row(*old(db), t2, r2) && !db_has_row(*final(db), t2, r2)
                            ==> #[trigger] in_cascade(*old(db), t2, r2, request.table_id, id)
                    &&& forall|t2: u64, r2: u64|
                        #[trigger] in_cascade(*old(db), t2, r2, request.table_id, id)
                            ==> !db_has_row(*final(db), t2, r2)
                })
            },
            Command::Get(id) => {
                &&& *final(db) == *old(db)
                &&& (op_err_get(*old(db), request.table_id, id) matches Some(e) ==> resp
                    == Response::Error(e))
                &&& (op_err_get(*old(db), request.table_id, id) is None ==> (resp matches
                    Response::Get(v, vs) && v == db_row(*old(db), request.table_id, id).version
                    && vs@ == db_row(*old(db), request.table_id, id).values@))
            },
            Command::Query(_, _, _) => {
                &&& *final(db) == *old(db)
                &&& resp == Response::Error(DbError::NotSupported)
            },
            Command::Exit => {
                &&& *final(db) == *old(db)
                &&& resp == Response::Error(DbError::NotSupported)
            },
        }),
{
    let table_id = request.table_id;
    let result: Result<Response, DbError> = match request.command {
        Command::Insert(values) => handle_insert(db, table_id, values),
        Command::Update(id, version, values) => handle_update(db, table_id, id, version, values),
        Command::Drop(id) => handle_drop(db, table_id, id),
        Command::Get(id) => handle_get(db, table_id, id),
        Command::Query(column_id, operator, value) => handle_query(
            db,
            table_id,
            column_id,
            operator,
            value,
        ),
        Command::Exit => Err(DbError::NotSupported),
    };
    match result {
        Ok(response) => response,
        Err(code) => Response::Error(code),
    }
}

} // verus!
