//! Validation and the single-record operations: insert, update, get and the
//! (unsupported) filtered query.

use vstd::prelude::*;
use crate::database::{
    Column, Database, DbError, Row, Value, db_has_row, db_ri, db_row, db_wf, table_at,
    table_exists, table_wf, value_fits, value_ref_live,
};
use crate::dispatch::Response;

verus! {

/// The verdict on one value against its column: `None` if acceptable, else
/// the error reported. A null value is acceptable in any column; a non-null
/// value must match the column's type tag; a foreign-key value must identify
/// a row that exists in the referenced table.
pub open spec fn check_value(db: Database, c: Column, v: Value) -> Option<DbError> {
    match v {
        Value::Null => None,
        Value::Integer(_) => if c is Integer {
            None
        } else {
            Some(DbError::TypeMismatch)
        },
        Value::Float(_) => if c is Float {
            None
        } else {
            Some(DbError::TypeMismatch)
        },
        Value::Text(_) => if c is Text {
            None
        } else {
            Some(DbError::TypeMismatch)
        },
        Value::Foreign(rid) => match c {
            Column::Foreign(t2) => if db_has_row(db, t2, rid) {
                None
            } else {
                Some(DbError::DanglingForeignKey)
            },
            _ => Some(DbError::TypeMismatch),
        },
    }
}

/// The first violation at or after position `i`, scanning in column order.
pub open spec fn validate_from(db: Database, cols: Seq<Column>, vals: Seq<Value>, i: int) -> Option<
    DbError,
>
    decreases vals.len() - i,
{
    if i >= vals.len() {
        None
    } else {
        match check_value(db, cols[i], vals[i]) {
            Some(e) => Some(e),
            None => validate_from(db, cols, vals, i + 1),
        }
    }
}

/// The outcome of validating a candidate value sequence against a column
/// list: a shape mismatch if the lengths differ, otherwise the first
/// per-column violation in column order, otherwise `None`.
pub open spec fn validate_spec(db: Database, cols: Seq<Column>, vals: Seq<Value>) -> Option<
    DbError,
> {
    if cols.len() != vals.len() {
        Some(DbError::RowShapeMismatch)
    } else {
        validate_from(db, cols, vals, 0)
    }
}

/// A clean validation pass leaves no violation at any position.
pub proof fn lemma_validate_from_ok(db: Database, cols: Seq<Column>, vals: Seq<Value>, i: int)
    requires
        0 <= i <= vals.len(),
        validate_from(db, cols, vals, i) is None,
    ensures
        forall|j: int| i <= j < vals.len() ==> check_value(db, cols[j], #[trigger] vals[j]) is None,
    decreases vals.len() - i,
{
    if i < vals.len() {
        lemma_validate_from_ok(db, cols, vals, i + 1);
    }
}

/// Validates `values` against the columns of table `table_id`, returning the
/// verdict that `validate_spec` describes.
pub fn validate_values(db: &Database, table_id: u64, values: &Vec<Value>) -> (r: Option<DbError>)
    requires
        db_wf(*db),
        table_exists(*db, table_id),
    ensures
        r == validate_spec(*db, table_at(*db, table_id).info@, values@),
{
    let n = db.tables.len();
    assert(table_id <= n as u64);
    let idx: usize = (table_id - 1) as usize;
    let ncols = db.tables[idx].info.len();
    if ncols != values.len() {
        return Some(DbError::RowShapeMismatch);
    }
    let ghost cols = table_at(*db, table_id).info@;
    let mut j: usize = 0;
    while j < ncols
        invariant
            db_wf(*db),
            table_exists(*db, table_id),
            idx == table_id - 1,
            cols == table_at(*db, table_id).info@,
            ncols == cols.len(),
            ncols == values@.len(),
            j <= ncols,
            validate_from(*db, cols, values@, 0) == validate_from(*db, cols, values@, j as int),
        decreases ncols - j,
    {
        let c = db.tables[idx].info[j];
        match &values[j] {
            Value::Null => {},
            Value::Integer(_) => {
                match c {
                    Column::Integer => {},
                    _ => {
                        return Some(DbError::TypeMismatch);
                    },
                }
            },
            Value::Float(_) => {
                match c {
                    Column::Float => {},
                    _ => {
                        return Some(DbError::TypeMismatch);
                    },
                }
            },
            Value::Text(_) => {
                match c {
                    Column::Text => {},
                    _ => {
                        return Some(DbError::TypeMismatch);
                    },
                }
            },
            Value::Foreign(rid) => {
                match c {
                    Column::Foreign(t2) => {
                        if !(1 <= t2 && t2 <= db.tables.len() as u64) {
                            return Some(DbError::DanglingForeignKey);
                        }
                        let tidx: usize = (t2 - 1) as usize;
                        let r = *rid;
                        if !(1 <= r && r <= db.tables[tidx].data.len() as u64) {
                            return Some(DbError::DanglingForeignKey);
                        }
                        if db.tables[tidx].data[(r - 1) as usize].is_none() {
                            return Some(DbError::DanglingForeignKey);
                        }
                    },
                    _ => {
                        return Some(DbError::TypeMismatch);
                    },
                }
            },
        }
        assert(check_value(*db, cols[j as int], values@[j as int]) is None);
        j = j + 1;
    }
    None
}

/// The error an insert into table `t` with values `vals` reports, if any.
pub open spec fn op_err_insert(db: Database, t: u64, vals: Seq<Value>) -> Option<DbError> {
    if !table_exists(db, t) {
        Some(DbError::UnknownTable)
    } else {
        validate_spec(db, table_at(db, t).info@, vals)
    }
}

/// How a successful insert of `vals` into table `t` changes the store: only
/// table `t` changes, its counter advances by one, and one new row with
/// version 1 takes the freshly allocated identifier.
pub open spec fn insert_post(pre: Database, post: Database, t: u64, vals: Vec<Value>) -> bool {
    &&& post.tables@.len() == pre.tables@.len()
    &&& forall|i: int|
        0 <= i < pre.tables@.len() && i != t - 1 ==> post.tables@[i] == pre.tables@[i]
    &&& table_at(post, t).info == table_at(pre, t).info
    &&& table_at(post, t).count == table_at(pre, t).count + 1
    &&& table_at(post, t).data@ == table_at(pre, t).data@.push(
        Some(Row { version: 1, values: vals }),
    )
}

/// A successful insert or update preserves well-formedness and referential
/// integrity: the stored values were validated against the pre-state, and no
/// row that was a foreign-key target disappears.
proof fn lemma_write_preserves(
    pre: Database,
    post: Database,
    t: u64,
    vals: Vec<Value>,
    w: int,
    newver: u64,
)
    requires
        db_wf(pre),
        table_exists(pre, t),
        validate_spec(pre, table_at(pre, t).info@, vals@) is None,
        post.tables@.len() == pre.tables@.len(),
        forall|i: int|
            0 <= i < pre.tables@.len() && i != t - 1 ==> post.tables@[i] == pre.tables@[i],
        table_at(post, t).info == table_at(pre, t).info,
        table_at(post, t).data@.len() == table_at(pre, t).data@.len() || (table_at(
            post,
            t,
        ).data@.len() == table_at(pre, t).data@.len() + 1 && w == table_at(pre, t).data@.len()),
        table_at(post, t).count == table_at(post, t).data@.len(),
        // the one written slot holds the validated values with a positive version:
        0 <= w < table_at(post, t).data@.len(),
        newver >= 1,
        (table_at(post, t).data@[w] == Some(Row { version: newver, values: vals })),
        // every other pre-state slot survives unchanged:
        forall|i: int|
            0 <= i < table_at(pre, t).data@.len() && i != w ==> #[trigger] table_at(
                post,
                t,
            ).data@[i] == table_at(pre, t).data@[i],
    ensures
        db_wf(post),
        db_ri(pre) ==> db_ri(post),
{
    let cols = table_at(pre, t).info@;
    let tpre = table_at(pre, t);
    let tpost = table_at(post, t);
    assert(cols.len() == vals@.len());
    lemma_validate_from_ok(pre, cols, vals@, 0);
    // presence is monotone from pre to post
    assert forall|t2: u64, r2: u64| db_has_row(pre, t2, r2) implies db_has_row(post, t2, r2) by {
        if t2 == t {
            if r2 as int - 1 != w {
                assert(tpost.data@[r2 as int - 1] == tpre.data@[r2 as int - 1]);
            }
        } else {
            assert(post.tables@[t2 as int - 1] == pre.tables@[t2 as int - 1]);
        }
    }
    assert forall|i: int|
        0 <= i < post.tables@.len() implies table_wf(#[trigger] post.tables@[i]) by {
        assert(table_wf(pre.tables@[i]));
        if i != t - 1 {
            assert(post.tables@[i] == pre.tables@[i]);
        } else {
            assert forall|k: int|
                0 <= k < tpost.data@.len() && (#[trigger] tpost.data@[k]) is Some implies {
                &&& (tpost.data@[k]->0).values@.len() == tpost.info@.len()
                &&& (tpost.data@[k]->0).version >= 1
                &&& forall|j: int|
                    0 <= j < tpost.info@.len() ==> value_fits(
                        tpost.info@[j],
                        #[trigger] (tpost.data@[k]->0).values@[j],
                    )
            } by {
                if k == w {
                    assert((tpost.data@[k]->0).values == vals);
                    assert forall|j: int| 0 <= j < cols.len() implies value_fits(
                        cols[j],
                        #[trigger] vals@[j],
                    ) by {
                        assert(check_value(pre, cols[j], vals@[j]) is None);
                    }
                } else {
                    assert(k < tpre.data@.len());
                    assert(tpost.data@[k] == tpre.data@[k]);
                }
            }
            assert(post.tables@[i] == tpost);
        }
    }
    if db_ri(pre) {
        assert forall|t2: u64, id2: u64, j: int|
            db_has_row(post, t2, id2) && 0 <= j < table_at(post, t2).info@.len()
                implies value_ref_live(
            post,
            table_at(post, t2).info@[j],
            #[trigger] db_row(post, t2, id2).values@[j],
        ) by {
            if t2 == t && id2 as int - 1 == w {
                assert(db_row(post, t2, id2).values == vals);
                assert(check_value(pre, cols[j], vals@[j]) is None);
            } else {
                if t2 == t {
                    assert(id2 as int - 1 < tpre.data@.len());
                    assert(tpost.data@[id2 as int - 1] == tpre.data@[id2 as int - 1]);
                } else {
                    assert(post.tables@[t2 as int - 1] == pre.tables@[t2 as int - 1]);
                }
                assert(db_has_row(pre, t2, id2));
                assert(db_row(post, t2, id2) == db_row(pre, t2, id2));
                assert(table_at(post, t2).info == table_at(pre, t2).info);
                assert(value_ref_live(
                    pre,
                    table_at(pre, t2).info@[j],
                    db_row(pre, t2, id2).values@[j],
                ));
            }
        }
    }
}

/// Inserts a row built from `values` into table `table_id`.
///
/// On success the table's counter advances by one, the new row takes that
/// counter as its identifier and version 1, and the pair (identifier, 1) is
/// returned; on any error the store is unchanged.
pub fn handle_insert(db: &mut Database, table_id: u64, values: Vec<Value>) -> (r: Result<
    Response,
    DbError,
>)
    requires
        db_wf(*old(db)),
        table_exists(*old(db), table_id) ==> table_at(*old(db), table_id).data@.len()
            < usize::MAX,
    ensures
        db_wf(*final(db)),
        db_ri(*old(db)) ==> db_ri(*final(db)),
        r is Err <==> op_err_insert(*old(db), table_id, values@) is Some,
        r is Err ==> r == Err::<Response, DbError>(
            op_err_insert(*old(db), table_id, values@)->0,
        ) && *final(db) == *old(db),
        r is Ok ==> r == Ok::<Response, DbError>(
            Response::Insert((table_at(*old(db), table_id).data@.len() + 1) as u64, 1),
        ) && insert_post(*old(db), *final(db), table_id, values),
{
    if !(1 <= table_id && table_id <= db.tables.len() as u64) {
        return Err(DbError::UnknownTable);
    }
    if let Some(e) = validate_values(db, table_id, &values) {
        return Err(e);
    }
    let ghost pre = *db;
    let idx: usize = (table_id - 1) as usize;
    let tb = &mut db.tables[idx];
    tb.count = tb.count + 1;
    let ghost vals = values;
    tb.data.push(Some(Row { version: 1, values }));
    let id = tb.data.len() as u64;
    proof {
        lemma_write_preserves(pre, *db, table_id, vals, table_at(pre, table_id).data@.len() as int, 1);
    }
    Ok(Response::Insert(id, 1))
}

/// The error an update of row `id` in table `t` reports, if any. The
/// replacement values are validated before the row and version checks, and a
/// non-zero expected version must equal the row's current version.
pub open spec fn op_err_update(
    db: Database,
    t: u64,
    id: u64,
    expected: u64,
    vals: Seq<Value>,
) -> Option<DbError> {
    if !table_exists(db, t) {
        Some(DbError::UnknownTable)
    } else {
        match validate_spec(db, table_at(db, t).info@, vals) {
            Some(e) => Some(e),
            None => if !db_has_row(db, t, id) {
                Some(DbError::NotFound)
            } else if expected != 0 && expected != db_row(db, t, id).version {
                Some(DbError::VersionConflict)
            } else {
                None
            },
        }
    }
}

/// How a successful update of row `id` in table `t` changes the store: the
/// row keeps its identifier, its version advances by exactly one, and its
/// values are replaced by `vals`; nothing else changes.
pub open spec fn update_post(pre: Database, post: Database, t: u64, id: u64, vals: Vec<Value>) -> bool {
    &&& post.tables@.len() == pre.tables@.len()
    &&& forall|i: int|
        0 <= i < pre.tables@.len() && i != t - 1 ==> post.tables@[i] == pre.tables@[i]
    &&& table_at(post, t).info == table_at(pre, t).info
    &&& table_at(post, t).count == table_at(pre, t).count
    &&& table_at(post, t).data@ == table_at(pre, t).data@.update(
        id as int - 1,
        Some(Row { version: (db_row(pre, t, id).version + 1) as u64, values: vals }),
    )
}

/// Replaces the values of row `object_id` in table `table_id`, guarded by an
/// optimistic-concurrency check: a non-zero `version` must equal the row's
/// current version. On success the new version is returned; on any error the
/// store is unchanged.
pub fn handle_update(
    db: &mut Database,
    table_id: u64,
    object_id: u64,
    version: u64,
    values: Vec<Value>,
) -> (r: Result<Response, DbError>)
    requires
        db_wf(*old(db)),
        db_has_row(*old(db), table_id, object_id) ==> db_row(
            *old(db),
            table_id,
            object_id,
        ).version < u64::MAX,
    ensures
        db_wf(*final(db)),
        db_ri(*old(db)) ==> db_ri(*final(db)),
        r is Err <==> op_err_update(*old(db), table_id, object_id, version, values@) is Some,
        r is Err ==> r == Err::<Response, DbError>(
            op_err_update(*old(db), table_id, object_id, version, values@)->0,
        ) && *final(db) == *old(db),
        r is Ok ==> r == Ok::<Response, DbError>(
            Response::Update((db_row(*old(db), table_id, object_id).version + 1) as u64),
        ) && update_post(*old(db), *final(db), table_id, object_id, values),
{
    if !(1 <= table_id && table_id <= db.tables.len() as u64) {
        return Err(DbError::UnknownTable);
    }
    if let Some(e) = validate_values(db, table_id, &values) {
        return Err(e);
    }
    let idx: usize = (table_id - 1) as usize;
    if !(1 <= object_id && object_id <= db.tables[idx].data.len() as u64) {
        return Err(DbError::NotFound);
    }
    let ridx: usize = (object_id - 1) as usize;
    let current = match &db.tables[idx].data[ridx] {
        Some(row) => row.version,
        None => {
            return Err(DbError::NotFound);
        },
    };
    if version != 0 && version != current {
        return Err(DbError::VersionConflict);
    }
    let ghost pre = *db;
    let new_version = current + 1;
    let ghost vals = values;
    let tb = &mut db.tables[idx];
    tb.data[ridx] = Some(Row { version: new_version, values });
    proof {
        lemma_write_preserves(pre, *db, table_id, vals, object_id as int - 1, new_version);
    }
    Ok(Response::Update(new_version))
}

/// The error a get of row `id` in table `t` reports, if any.
pub open spec fn op_err_get(db: Database, t: u64, id: u64) -> Option<DbError> {
    if !table_exists(db, t) {
        Some(DbError::UnknownTable)
    } else if !db_has_row(db, t, id) {
        Some(DbError::NotFound)
    } else {
        None
    }
}

/// Reads row `object_id` of table `table_id`, returning its current version
/// and a copy of its values. The store is never changed.
pub fn handle_get(db: &Database, table_id: u64, object_id: u64) -> (r: Result<Response, DbError>)
    requires
        db_wf(*db),
    ensures
        r is Err <==> op_err_get(*db, table_id, object_id) is Some,
        r is Err ==> r == Err::<Response, DbError>(op_err_get(*db, table_id, object_id)->0),
        r is Ok ==> (r matches Ok(resp) && resp matches Response::Get(v, vs) && v == db_row(
            *db,
            table_id,
            object_id,
        ).version && vs@ == db_row(*db, table_id, object_id).values@),
{
    if !(1 <= table_id && table_id <= db.tables.len() as u64) {
        return Err(DbError::UnknownTable);
    }
    let idx: usize = (table_id - 1) as usize;
    if !(1 <= object_id && object_id <= db.tables[idx].data.len() as u64) {
        return Err(DbError::NotFound);
    }
    let ridx: usize = (object_id - 1) as usize;
    match &db.tables[idx].data[ridx] {
        Some(row) => {
            let vs = row.values.clone();
            assert(vs@ =~= row.values@);
            Ok(Response::Get(row.version, vs))
        },
        None => Err(DbError::NotFound),
    }
}

/// The filtered query is declared by the request surface but its semantics
/// are not part of this design: it always reports `NotSupported`.
pub fn handle_query(
    _db: &Database,
    _table_id: u64,
    _column_id: u64,
    _operator: u64,
    _other: Value,
) -> (r: Result<Response, DbError>)
    ensures
        r == Err::<Response, DbError>(DbError::NotSupported),
{
    Err(DbError::NotSupported)
}

} // verus!
