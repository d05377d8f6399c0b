//! Laws relating the store operations, stated over the same spec functions
//! that the operations' own contracts use, and proved once and for all.

use vstd::prelude::*;
use crate::cascade::{in_cascade, lemma_reaches_trans, reaches, row_references};
use crate::database::{
    Database, DbError, Row, Value, db_has_row, db_row, db_wf, table_at, table_exists,
};
use crate::ops::{insert_post, op_err_get, op_err_insert, op_err_update, validate_spec};

verus! {

/// After a successful insert, a get on the returned row identifier
/// succeeds and yields version 1 and exactly the inserted values.
pub proof fn lemma_insert_then_get(pre: Database, post: Database, t: u64, vals: Vec<Value>)
    requires
        db_wf(pre),
        table_at(pre, t).data@.len() < usize::MAX,
        op_err_insert(pre, t, vals@) is None,
        insert_post(pre, post, t, vals),
    ensures
        op_err_get(post, t, (table_at(pre, t).data@.len() + 1) as u64) is None,
        db_row(post, t, (table_at(pre, t).data@.len() + 1) as u64).version == 1,
        db_row(post, t, (table_at(pre, t).data@.len() + 1) as u64).values == vals,
{
    let id = (table_at(pre, t).data@.len() + 1) as u64;
    assert(table_exists(pre, t));
    assert(table_at(post, t).data@[id as int - 1] == Some(Row { version: 1, values: vals }));
    assert(db_has_row(post, t, id));
}

/// An update with expected version 0 performs no version check: on an
/// existing row with valid replacement values it always succeeds, whatever
/// the row's current version.
pub proof fn lemma_update_unversioned(db: Database, t: u64, id: u64, vals: Seq<Value>)
    requires
        table_exists(db, t),
        validate_spec(db, table_at(db, t).info@, vals) is None,
        db_has_row(db, t, id),
    ensures
        op_err_update(db, t, id, 0, vals) is None,
{
}

/// An update with a non-zero expected version that differs from the row's
/// current version reports a version conflict (and, by the update
/// operation's contract, leaves the store unchanged).
pub proof fn lemma_update_version_conflict(
    db: Database,
    t: u64,
    id: u64,
    expected: u64,
    vals: Seq<Value>,
)
    requires
        table_exists(db, t),
        validate_spec(db, table_at(db, t).info@, vals) is None,
        db_has_row(db, t, id),
        expected != 0,
        expected != db_row(db, t, id).version,
    ensures
        op_err_update(db, t, id, expected, vals) == Some(DbError::VersionConflict),
{
}

/// A row holding a foreign-key reference to an existing target belongs to
/// the target's cascade: a successful delete of the target removes it.
pub proof fn lemma_dependent_in_cascade(db: Database, t2: u64, r2: u64, tt: u64, rr: u64)
    requires
        row_references(db, t2, r2, tt, rr),
        db_has_row(db, tt, rr),
    ensures
        in_cascade(db, t2, r2, tt, rr),
{
    assert(reaches(db, tt, rr, tt, rr, 0));
    assert(reaches(db, t2, r2, tt, rr, 1));
}

/// Cascade membership is transitive: a row that reaches a row of the
/// target's cascade is itself in the target's cascade, so deletion removes
/// dependents through reference chains of any length.
pub proof fn lemma_cascade_trans(
    db: Database,
    at: u64,
    ar: u64,
    bt: u64,
    br: u64,
    ct: u64,
    cr: u64,
)
    requires
        in_cascade(db, at, ar, bt, br),
        in_cascade(db, bt, br, ct, cr),
    ensures
        in_cascade(db, at, ar, ct, cr),
{
    let n = choose|n: nat| reaches(db, at, ar, bt, br, n);
    let m = choose|m: nat| reaches(db, bt, br, ct, cr, m);
    lemma_reaches_trans(db, at, ar, bt, br, ct, cr, n, m);
}

proof fn lemma_no_dependents_reach(db: Database, tt: u64, rr: u64, t2: u64, r2: u64, n: nat)
    requires
        forall|a: u64, b: u64| !#[trigger] row_references(db, a, b, tt, rr),
        reaches(db, t2, r2, tt, rr, n),
    ensures
        t2 == tt && r2 == rr,
    decreases n,
{
    if t2 == tt && r2 == rr && db_has_row(db, tt, rr) {
    } else {
        let (t3, r3) = choose|t3: u64, r3: u64|
            #[trigger] row_references(db, t2, r2, t3, r3) && reaches(
                db,
                t3,
                r3,
                tt,
                rr,
                (n - 1) as nat,
            );
        lemma_no_dependents_reach(db, tt, rr, t3, r3, (n - 1) as nat);
        assert(row_references(db, t2, r2, tt, rr));
        assert(false);
    }
}

/// A row that nothing references has a cascade of exactly itself: deleting
/// it removes that row and no other.
pub proof fn lemma_no_dependents_cascade_alone(db: Database, tt: u64, rr: u64)
    requires
        forall|a: u64, b: u64| !#[trigger] row_references(db, a, b, tt, rr),
    ensures
        forall|t2: u64, r2: u64|
            #[trigger] in_cascade(db, t2, r2, tt, rr) ==> t2 == tt && r2 == rr,
{
    assert forall|t2: u64, r2: u64|
        #[trigger] in_cascade(db, t2, r2, tt, rr) implies t2 == tt && r2 == rr by {
        let n = choose|n: nat| reaches(db, t2, r2, tt, rr, n);
        lemma_no_dependents_reach(db, tt, rr, t2, r2, n);
    }
}

} // verus!
