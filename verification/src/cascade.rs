//! The cascading delete: removing a row also removes, transitively, every
//! row that references it through a foreign-key column.
//!
//! The spec-level story is the reference-reachability relation `reaches`: a
//! successful delete of a row removes exactly the rows that transitively
//! reference it in the pre-state, and nothing else.

use vstd::prelude::*;
use crate::database::{
    Column, Database, DbError, Row, Value, db_has_row, db_ri, db_row, db_wf, table_at,
    table_exists, table_wf, value_ref_live,
};
use crate::dispatch::Response;

verus! {

/// Some column pairs a foreign-key column targeting table `tt` with a
/// stored reference to its row `rr`.
pub open spec fn has_fk_to(info: Seq<Column>, vals: Seq<Value>, tt: u64, rr: u64) -> bool {
    exists|j: int|
        0 <= j < vals.len() && info[j] == Column::Foreign(tt) && (#[trigger] vals[j])
            == Value::Foreign(rr)
}

/// Row (`t2`, `r2`) exists and holds a foreign-key reference to row (`tt`,
/// `rr`).
pub open spec fn row_references(db: Database, t2: u64, r2: u64, tt: u64, rr: u64) -> bool {
    &&& db_has_row(db, t2, r2)
    &&& has_fk_to(table_at(db, t2).info@, db_row(db, t2, r2).values@, tt, rr)
}

/// Row (`t2`, `r2`) reaches row (`tt`, `rr`) through a chain of at most `n`
/// foreign-key references (a chain of length 0 is the row itself). Every row
/// on such a chain exists in `db`.
pub open spec fn reaches(db: Database, t2: u64, r2: u64, tt: u64, rr: u64, n: nat) -> bool
    decreases n,
{
    ||| (t2 == tt && r2 == rr && db_has_row(db, tt, rr))
    ||| (n > 0 && exists|t3: u64, r3: u64|
        #[trigger] row_references(db, t2, r2, t3, r3) && reaches(db, t3, r3, tt, rr, (n - 1) as nat))
}

/// Row (`t2`, `r2`) belongs to the cascade of a delete of row (`tt`, `rr`):
/// it exists and transitively references the target (or is the target).
pub open spec fn in_cascade(db: Database, t2: u64, r2: u64, tt: u64, rr: u64) -> bool {
    exists|n: nat| reaches(db, t2, r2, tt, rr, n)
}

/// `post` is `pre` with zero or more rows removed: the tables, their columns
/// and their counters are unchanged, and every surviving row slot is
/// unchanged.
pub open spec fn rows_sub(pre: Database, post: Database) -> bool {
    &&& post.tables@.len() == pre.tables@.len()
    &&& forall|i: int|
        0 <= i < pre.tables@.len() ==> {
            &&& (#[trigger] post.tables@[i]).info == pre.tables@[i].info
            &&& post.tables@[i].count == pre.tables@[i].count
            &&& post.tables@[i].data@.len() == pre.tables@[i].data@.len()
            &&& forall|k: int|
                0 <= k < pre.tables@[i].data@.len() && (#[trigger] post.tables@[i].data@[k])
                    is Some ==> post.tables@[i].data@[k] == pre.tables@[i].data@[k]
        }
}

/// The number of rows present in the slot sequence `s` from position `i` on.
pub open spec fn rows_in(s: Seq<Option<Row>>, i: int) -> nat
    decreases s.len() - i,
{
    if i < 0 || i >= s.len() {
        0
    } else {
        (if s[i] is Some {
            1nat
        } else {
            0nat
        }) + rows_in(s, i + 1)
    }
}

/// The number of rows present in the store, over the tables from `i` on.
pub open spec fn total_rows_from(db: Database, i: int) -> nat
    decreases db.tables@.len() - i,
{
    if i < 0 || i >= db.tables@.len() {
        0
    } else {
        rows_in(db.tables@[i].data@, 0) + total_rows_from(db, i + 1)
    }
}

/// The number of rows present in the whole store.
pub open spec fn total_rows(db: Database) -> nat {
    total_rows_from(db, 0)
}

proof fn lemma_rows_in_le(s1: Seq<Option<Row>>, s2: Seq<Option<Row>>, i: int)
    requires
        s1.len() == s2.len(),
        forall|k: int| 0 <= k < s1.len() && (#[trigger] s2[k]) is Some ==> s2[k] == s1[k],
    ensures
        rows_in(s2, i) <= rows_in(s1, i),
    decreases s1.len() - i,
{
    if 0 <= i < s1.len() {
        lemma_rows_in_le(s1, s2, i + 1);
    }
}

proof fn lemma_rows_in_lt(s1: Seq<Option<Row>>, s2: Seq<Option<Row>>, i: int, w: int)
    requires
        s1.len() == s2.len(),
        forall|k: int| 0 <= k < s1.len() && (#[trigger] s2[k]) is Some ==> s2[k] == s1[k],
        i <= w < s1.len(),
        0 <= i,
        s1[w] is Some,
        s2[w] is None,
    ensures
        rows_in(s2, i) < rows_in(s1, i),
    decreases s1.len() - i,
{
    if i == w {
        lemma_rows_in_le(s1, s2, i + 1);
    } else {
        lemma_rows_in_lt(s1, s2, i + 1, w);
    }
}

proof fn lemma_total_le_from(pre: Database, post: Database, i: int)
    requires
        rows_sub(pre, post),
    ensures
        total_rows_from(post, i) <= total_rows_from(pre, i),
    decreases pre.tables@.len() - i,
{
    if 0 <= i < pre.tables@.len() {
        lemma_rows_in_le(pre.tables@[i].data@, post.tables@[i].data@, 0);
        lemma_total_le_from(pre, post, i + 1);
    }
}

/// Removing rows never increases the row count.
pub proof fn lemma_total_le(pre: Database, post: Database)
    requires
        rows_sub(pre, post),
    ensures
        total_rows(post) <= total_rows(pre),
{
    lemma_total_le_from(pre, post, 0);
}

proof fn lemma_total_lt_from(pre: Database, post: Database, i: int, ti: int)
    requires
        rows_sub(pre, post),
        0 <= i <= ti < pre.tables@.len(),
        rows_in(post.tables@[ti].data@, 0) < rows_in(pre.tables@[ti].data@, 0),
    ensures
        total_rows_from(post, i) < total_rows_from(pre, i),
    decreases pre.tables@.len() - i,
{
    if i == ti {
        lemma_total_le_from(pre, post, i + 1);
    } else {
        lemma_rows_in_le(pre.tables@[i].data@, post.tables@[i].data@, 0);
        lemma_total_lt_from(pre, post, i + 1, ti);
    }
}

/// Removing at least one row strictly decreases the row count.
pub proof fn lemma_total_lt(pre: Database, post: Database, tt: u64, rr: u64)
    requires
        rows_sub(pre, post),
        db_has_row(pre, tt, rr),
        !db_has_row(post, tt, rr),
    ensures
        total_rows(post) < total_rows(pre),
{
    let ti = tt as int - 1;
    lemma_rows_in_lt(pre.tables@[ti].data@, post.tables@[ti].data@, 0, rr as int - 1);
    lemma_total_lt_from(pre, post, 0, ti);
}

/// Removal steps compose.
pub proof fn lemma_rows_sub_trans(a: Database, b: Database, c: Database)
    requires
        rows_sub(a, b),
        rows_sub(b, c),
    ensures
        rows_sub(a, c),
{
    assert forall|i: int| 0 <= i < a.tables@.len() implies {
        &&& (#[trigger] c.tables@[i]).info == a.tables@[i].info
        &&& c.tables@[i].count == a.tables@[i].count
        &&& c.tables@[i].data@.len() == a.tables@[i].data@.len()
        &&& forall|k: int|
            0 <= k < a.tables@[i].data@.len() && (#[trigger] c.tables@[i].data@[k]) is Some
                ==> c.tables@[i].data@[k] == a.tables@[i].data@[k]
    } by {
        assert forall|k: int|
            0 <= k < a.tables@[i].data@.len() && (#[trigger] c.tables@[i].data@[k])
                is Some implies c.tables@[i].data@[k] == a.tables@[i].data@[k] by {
            assert(c.tables@[i].data@[k] == b.tables@[i].data@[k]);
            assert(b.tables@[i].data@[k] == a.tables@[i].data@[k]);
        }
    }
}

/// A reference held by a row that survives into `post` was already held in
/// `pre`.
proof fn lemma_row_references_sub(pre: Database, post: Database, t2: u64, r2: u64, tt: u64, rr: u64)
    requires
        rows_sub(pre, post),
        row_references(post, t2, r2, tt, rr),
    ensures
        row_references(pre, t2, r2, tt, rr),
{
    assert(post.tables@[t2 as int - 1].data@[r2 as int - 1] == pre.tables@[t2 as int
        - 1].data@[r2 as int - 1]);
    assert(table_at(pre, t2).info@ == table_at(post, t2).info@);
    assert(db_row(pre, t2, r2) == db_row(post, t2, r2));
}

/// A reference held in `pre` by a row that survives into `post` is still
/// held in `post`.
proof fn lemma_row_references_sub_rev(
    pre: Database,
    post: Database,
    t2: u64,
    r2: u64,
    tt: u64,
    rr: u64,
)
    requires
        rows_sub(pre, post),
        row_references(pre, t2, r2, tt, rr),
        db_has_row(post, t2, r2),
    ensures
        row_references(post, t2, r2, tt, rr),
{
    assert(post.tables@[t2 as int - 1].data@[r2 as int - 1] == pre.tables@[t2 as int
        - 1].data@[r2 as int - 1]);
    assert(table_at(pre, t2).info@ == table_at(post, t2).info@);
    assert(db_row(pre, t2, r2) == db_row(post, t2, r2));
}

/// A reference chain in a store with fewer rows is a chain in the larger
/// store.
proof fn lemma_reaches_sub(
    pre: Database,
    post: Database,
    t2: u64,
    r2: u64,
    tt: u64,
    rr: u64,
    n: nat,
)
    requires
        rows_sub(pre, post),
        reaches(post, t2, r2, tt, rr, n),
    ensures
        reaches(pre, t2, r2, tt, rr, n),
    decreases n,
{
    if t2 == tt && r2 == rr && db_has_row(post, tt, rr) {
        assert(post.tables@[tt as int - 1].data@[rr as int - 1] == pre.tables@[tt as int
            - 1].data@[rr as int - 1]);
        assert(db_has_row(pre, tt, rr));
    } else {
        let (t3, r3) = choose|t3: u64, r3: u64|
            #[trigger] row_references(post, t2, r2, t3, r3) && reaches(
                post,
                t3,
                r3,
                tt,
                rr,
                (n - 1) as nat,
            );
        lemma_row_references_sub(pre, post, t2, r2, t3, r3);
        lemma_reaches_sub(pre, post, t3, r3, tt, rr, (n - 1) as nat);
        assert(reaches(pre, t2, r2, tt, rr, n));
    }
}

/// A chain of at most `n` steps is a chain of at most `m >= n` steps.
proof fn lemma_reaches_mono(db: Database, t2: u64, r2: u64, tt: u64, rr: u64, n: nat, m: nat)
    requires
        reaches(db, t2, r2, tt, rr, n),
        n <= m,
    ensures
        reaches(db, t2, r2, tt, rr, m),
    decreases n,
{
    if t2 == tt && r2 == rr && db_has_row(db, tt, rr) {
    } else {
        let (t3, r3) = choose|t3: u64, r3: u64|
            #[trigger] row_references(db, t2, r2, t3, r3) && reaches(
                db,
                t3,
                r3,
                tt,
                rr,
                (n - 1) as nat,
            );
        lemma_reaches_mono(db, t3, r3, tt, rr, (n - 1) as nat, (m - 1) as nat);
        assert(reaches(db, t2, r2, tt, rr, m));
    }
}

/// Reference chains compose.
pub proof fn lemma_reaches_trans(
    db: Database,
    at: u64,
    ar: u64,
    bt: u64,
    br: u64,
    ct: u64,
    cr: u64,
    n: nat,
    m: nat,
)
    requires
        reaches(db, at, ar, bt, br, n),
        reaches(db, bt, br, ct, cr, m),
    ensures
        reaches(db, at, ar, ct, cr, n + m),
    decreases n,
{
    if at == bt && ar == br && db_has_row(db, bt, br) {
        lemma_reaches_mono(db, bt, br, ct, cr, m, n + m);
    } else {
        let (t3, r3) = choose|t3: u64, r3: u64|
            #[trigger] row_references(db, at, ar, t3, r3) && reaches(
                db,
                t3,
                r3,
                bt,
                br,
                (n - 1) as nat,
            );
        lemma_reaches_trans(db, t3, r3, bt, br, ct, cr, (n - 1) as nat, m);
        assert(reaches(db, at, ar, ct, cr, n + m));
    }
}

/// Every row on a chain exists.
proof fn lemma_reaches_has_row(db: Database, t2: u64, r2: u64, tt: u64, rr: u64, n: nat)
    requires
        reaches(db, t2, r2, tt, rr, n),
    ensures
        db_has_row(db, t2, r2),
        db_has_row(db, tt, rr),
    decreases n,
{
    if t2 == tt && r2 == rr && db_has_row(db, tt, rr) {
    } else {
        let (t3, r3) = choose|t3: u64, r3: u64|
            #[trigger] row_references(db, t2, r2, t3, r3) && reaches(
                db,
                t3,
                r3,
                tt,
                rr,
                (n - 1) as nat,
            );
        lemma_reaches_has_row(db, t3, r3, tt, rr, (n - 1) as nat);
    }
}

/// In a store where the removed rows are closed under incoming references —
/// no surviving row references a removed row — everything that transitively
/// referenced a removed target is itself removed.
proof fn lemma_reach_removed(
    pre: Database,
    post: Database,
    tt: u64,
    rr: u64,
    t2: u64,
    r2: u64,
    n: nat,
)
    requires
        rows_sub(pre, post),
        !db_has_row(post, tt, rr),
        forall|t3: u64, r3: u64, t4: u64, r4: u64|
            db_has_row(pre, t3, r3) && !db_has_row(post, t3, r3) && db_has_row(post, t4, r4)
                ==> !#[trigger] row_references(post, t4, r4, t3, r3),
        reaches(pre, t2, r2, tt, rr, n),
    ensures
        !db_has_row(post, t2, r2),
    decreases n,
{
    if t2 == tt && r2 == rr && db_has_row(pre, tt, rr) {
    } else {
        let (t3, r3) = choose|t3: u64, r3: u64|
            #[trigger] row_references(pre, t2, r2, t3, r3) && reaches(
                pre,
                t3,
                r3,
                tt,
                rr,
                (n - 1) as nat,
            );
        lemma_reach_removed(pre, post, tt, rr, t3, r3, (n - 1) as nat);
        lemma_reaches_has_row(pre, t3, r3, tt, rr, (n - 1) as nat);
        if db_has_row(post, t2, r2) {
            lemma_row_references_sub_rev(pre, post, t2, r2, t3, r3);
            assert(false);
        }
    }
}

/// Under the same closedness hypothesis, the whole cascade of the target is
/// removed.
proof fn lemma_cascade_all_removed(pre: Database, post: Database, tt: u64, rr: u64)
    requires
        rows_sub(pre, post),
        !db_has_row(post, tt, rr),
        forall|t3: u64, r3: u64, t4: u64, r4: u64|
            db_has_row(pre, t3, r3) && !db_has_row(post, t3, r3) && db_has_row(post, t4, r4)
                ==> !#[trigger] row_references(post, t4, r4, t3, r3),
    ensures
        forall|t2: u64, r2: u64|
            #[trigger] in_cascade(pre, t2, r2, tt, rr) ==> !db_has_row(post, t2, r2),
{
    assert forall|t2: u64, r2: u64|
        #[trigger] in_cascade(pre, t2, r2, tt, rr) implies !db_has_row(post, t2, r2) by {
        let n = choose|n: nat| reaches(pre, t2, r2, tt, rr, n);
        lemma_reach_removed(pre, post, tt, rr, t2, r2, n);
    }
}

/// A closed removal preserves referential integrity: if no surviving row
/// references a removed row, every surviving foreign key still has a live
/// target.
proof fn lemma_ri_preserved(pre: Database, post: Database)
    requires
        db_wf(pre),
        db_ri(pre),
        rows_sub(pre, post),
        forall|t3: u64, r3: u64, t4: u64, r4: u64|
            db_has_row(pre, t3, r3) && !db_has_row(post, t3, r3) && db_has_row(post, t4, r4)
                ==> !#[trigger] row_references(post, t4, r4, t3, r3),
    ensures
        db_ri(post),
{
    assert forall|t: u64, id: u64, j: int|
        db_has_row(post, t, id) && 0 <= j < table_at(post, t).info@.len()
            implies value_ref_live(
        post,
        table_at(post, t).info@[j],
        #[trigger] db_row(post, t, id).values@[j],
    ) by {
        assert(post.tables@[t as int - 1].data@[id as int - 1] == pre.tables@[t as int
            - 1].data@[id as int - 1]);
        assert(db_has_row(pre, t, id));
        assert(db_row(post, t, id) == db_row(pre, t, id));
        assert(table_at(post, t).info@ == table_at(pre, t).info@);
        let c = table_at(pre, t).info@[j];
        let v = db_row(pre, t, id).values@[j];
        assert(value_ref_live(pre, c, v));
        match c {
            Column::Foreign(tf) => match v {
                Value::Foreign(rid) => {
                    assert(db_has_row(pre, tf, rid));
                    if !db_has_row(post, tf, rid) {
                        assert(db_row(pre, t, id).values@.len() == table_at(pre, t).info@.len());
                        assert(db_row(post, t, id).values@[j] == Value::Foreign(rid));
                        assert(has_fk_to(
                            table_at(post, t).info@,
                            db_row(post, t, id).values@,
                            tf,
                            rid,
                        ));
                        assert(row_references(post, t, id, tf, rid));
                        assert(false);
                    }
                },
                _ => {},
            },
            _ => {},
        }
    }
}

/// The error a delete of row `id` in table `t` reports, if any.
pub open spec fn op_err_drop(db: Database, t: u64, id: u64) -> Option<DbError> {
    if !table_exists(db, t) {
        Some(DbError::UnknownTable)
    } else if !db_has_row(db, t, id) {
        Some(DbError::NotFound)
    } else {
        None
    }
}

/// Whether some column pairs a foreign-key reference to table `table_id`
/// with the row identifier `object_id`.
fn row_has_ref(info: &Vec<Column>, values: &Vec<Value>, table_id: u64, object_id: u64) -> (b: bool)
    requires
        values@.len() == info@.len(),
    ensures
        b == has_fk_to(info@, values@, table_id, object_id),
{
    let mut j: usize = 0;
    while j < values.len()
        invariant
            values@.len() == info@.len(),
            j <= values@.len(),
            forall|k: int|
                0 <= k < j ==> !(info@[k] == Column::Foreign(table_id) && #[trigger] values@[k]
                    == Value::Foreign(object_id)),
        decreases values@.len() - j,
    {
        let col_match = match info[j] {
            Column::Foreign(t) => t == table_id,
            _ => false,
        };
        if col_match {
            let val_match = match &values[j] {
                Value::Foreign(r) => *r == object_id,
                _ => false,
            };
            if val_match {
                assert(info@[j as int] == Column::Foreign(table_id) && values@[j as int]
                    == Value::Foreign(object_id));
                assert(has_fk_to(info@, values@, table_id, object_id));
                return true;
            }
        }
        j = j + 1;
    }
    false
}

/// A pair is listed among the collected dependents.
pub open spec fn listed(deps: Seq<(u64, u64)>, t2: u64, r2: u64) -> bool {
    exists|k: int| 0 <= k < deps.len() && #[trigger] deps[k] == (t2, r2)
}

/// Collects every row of the store that holds a foreign-key reference to
/// row `object_id` of table `table_id`.
#[verifier::loop_isolation(false)]
fn find_dependents(db: &Database, table_id: u64, object_id: u64) -> (deps: Vec<(u64, u64)>)
    requires
        db_wf(*db),
    ensures
        forall|k: int|
            0 <= k < deps@.len() ==> row_references(
                *db,
                (#[trigger] deps@[k]).0,
                deps@[k].1,
                table_id,
                object_id,
            ),
        forall|t2: u64, r2: u64|
            #[trigger] row_references(*db, t2, r2, table_id, object_id) ==> listed(
                deps@,
                t2,
                r2,
            ),
{
    let mut deps: Vec<(u64, u64)> = Vec::new();
    let nt = db.tables.len();
    let mut ti: usize = 0;
    while ti < nt
        invariant
            ti <= nt,
            forall|k: int|
                0 <= k < deps@.len() ==> row_references(
                    *db,
                    (#[trigger] deps@[k]).0,
                    deps@[k].1,
                    table_id,
                    object_id,
                ),
            forall|t2: u64, r2: u64|
                1 <= t2 <= ti && #[trigger] row_references(*db, t2, r2, table_id, object_id)
                    ==> listed(deps@, t2, r2),
        decreases nt - ti,
    {
        let nr = db.tables[ti].data.len();
        let mut ri: usize = 0;
        while ri < nr
            invariant
                ri <= nr,
                forall|k: int|
                    0 <= k < deps@.len() ==> row_references(
                        *db,
                        (#[trigger] deps@[k]).0,
                        deps@[k].1,
                        table_id,
                        object_id,
                    ),
                forall|t2: u64, r2: u64|
                    1 <= t2 <= ti && #[trigger] row_references(*db, t2, r2, table_id, object_id)
                        ==> listed(deps@, t2, r2),
                forall|r2: u64|
                    1 <= r2 <= ri && #[trigger] row_references(
                        *db,
                        (ti + 1) as u64,
                        r2,
                        table_id,
                        object_id,
                    ) ==> listed(deps@, (ti + 1) as u64, r2),
            decreases nr - ri,
        {
            let ghost deps0 = deps@;
            let found = match &db.tables[ti].data[ri] {
                Some(row) => {
                    assert(row.values@.len() == db.tables@[ti as int].info@.len());
                    row_has_ref(&db.tables[ti].info, &row.values, table_id, object_id)
                },
                None => false,
            };
            if found {
                deps.push(((ti + 1) as u64, (ri + 1) as u64));
            }
            proof {
                assert forall|a: u64, b: u64| listed(deps0, a, b) implies listed(deps@, a, b) by {
                    let k = choose|k: int| 0 <= k < deps0.len() && #[trigger] deps0[k] == (a, b);
                    assert(deps@[k] == (a, b));
                }
                let t2: u64 = (ti + 1) as u64;
                let r2: u64 = (ri + 1) as u64;
                if db.tables@[ti as int].data@[ri as int] is Some {
                    assert(db_has_row(*db, t2, r2));
                    assert(db_row(*db, t2, r2) == db.tables@[ti as int].data@[ri as int]->0);
                    assert(table_at(*db, t2).info@ == db.tables@[ti as int].info@);
                    assert(found == row_references(*db, t2, r2, table_id, object_id));
                } else {
                    assert(!db_has_row(*db, t2, r2));
                }
                if found {
                    assert(deps@[deps@.len() - 1] == (t2, r2));
                    assert(listed(deps@, t2, r2));
                }
            }
            ri = ri + 1;
        }
        proof {
            assert forall|t2: u64, r2: u64|
                1 <= t2 <= ti + 1 && #[trigger] row_references(
                    *db,
                    t2,
                    r2,
                    table_id,
                    object_id,
                ) implies listed(deps@, t2, r2) by {
                if t2 == (ti + 1) as u64 {
                    assert(db_has_row(*db, t2, r2));
                    assert(1 <= r2 && r2 <= nr);
                }
            }
        }
        ti = ti + 1;
    }
    deps
}

/// Deletes row `object_id` of table `table_id`, first deleting — by the
/// same operation — every row that references it, transitively.
///
/// On success exactly the rows of the target's cascade are removed: a row
/// disappears if and only if it transitively referenced the target. On any
/// error the store is unchanged. A row that an outer cascade step already
/// removed reports `NotFound`, which cascade-internal calls ignore.
#[verifier::loop_isolation(false)]
pub fn handle_drop(db: &mut Database, table_id: u64, object_id: u64) -> (r: Result<
    Response,
    DbError,
>)
    requires
        db_wf(*old(db)),
    ensures
        db_wf(*final(db)),
        db_ri(*old(db)) ==> db_ri(*final(db)),
        r is Err <==> op_err_drop(*old(db), table_id, object_id) is Some,
        r is Err ==> r == Err::<Response, DbError>(op_err_drop(*old(db), table_id, object_id)->0)
            && *final(db) == *old(db),
        r is Ok ==> r == Ok::<Response, DbError>(Response::Drop),
        r is Ok ==> rows_sub(*old(db), *final(db)),
        r is Ok ==> total_rows(*final(db)) < total_rows(*old(db)),
        // only the target's cascade is removed ...
        r is Ok ==> forall|t2: u64, r2: u64|
            db_has_row(*old(db), t2, r2) && !db_has_row(*final(db), t2, r2)
                ==> #[trigger] in_cascade(*old(db), t2, r2, table_id, object_id),
        // ... and all of it is removed, the target row included.
        r is Ok ==> forall|t2: u64, r2: u64|
            #[trigger] in_cascade(*old(db), t2, r2, table_id, object_id) ==> !db_has_row(
                *final(db),
                t2,
                r2,
            ),
    decreases total_rows(*old(db)),
{
    if !(1 <= table_id && table_id <= db.tables.len() as u64) {
        return Err(DbError::UnknownTable);
    }
    let idx: usize = (table_id - 1) as usize;
    if !(1 <= object_id && object_id <= db.tables[idx].data.len() as u64) {
        return Err(DbError::NotFound);
    }
    let ridx: usize = (object_id - 1) as usize;
    if db.tables[idx].data[ridx].is_none() {
        return Err(DbError::NotFound);
    }
    let ghost pre = *db;
    let deps = find_dependents(db, table_id, object_id);
    // Remove the target row first: every row the scan found still references
    // it, and each recursive step below then works on a strictly smaller
    // store, so the recursion terminates even on reference cycles.
    let tb = &mut db.tables[idx];
    tb.data[ridx] = None;
    proof {
        assert(rows_sub(pre, *db));
        assert forall|i: int| 0 <= i < db.tables@.len() implies table_wf(
            #[trigger] db.tables@[i],
        ) by {
            assert(table_wf(pre.tables@[i]));
            if i == idx {
                assert forall|k: int|
                    0 <= k < db.tables@[i].data@.len() && (#[trigger] db.tables@[i].data@[k])
                        is Some implies db.tables@[i].data@[k] == pre.tables@[i].data@[k] by {}
            }
        }
        lemma_total_lt(pre, *db, table_id, object_id);
        // the target itself is in its own cascade:
        assert(reaches(pre, table_id, object_id, table_id, object_id, 0));
    }
    let mut k: usize = 0;
    while k < deps.len()
        invariant
            db_wf(*db),
            rows_sub(pre, *db),
            !db_has_row(*db, table_id, object_id),
            total_rows(*db) < total_rows(pre),
            k <= deps@.len(),
            // only rows of the target's cascade have been removed:
            forall|t2: u64, r2: u64|
                db_has_row(pre, t2, r2) && !db_has_row(*db, t2, r2) ==> #[trigger] in_cascade(
                    pre,
                    t2,
                    r2,
                    table_id,
                    object_id,
                ),
            // every still-present direct dependent is still pending:
            forall|t2: u64, r2: u64|
                db_has_row(*db, t2, r2) && #[trigger] row_references(
                    pre,
                    t2,
                    r2,
                    table_id,
                    object_id,
                ) ==> exists|k2: int| k <= k2 < deps@.len() && #[trigger] deps@[k2] == (t2, r2),
            // no surviving row references a removed row other than the target:
            forall|t3: u64, r3: u64, t4: u64, r4: u64|
                db_has_row(pre, t3, r3) && !db_has_row(*db, t3, r3) && !(t3 == table_id && r3
                    == object_id) && db_has_row(*db, t4, r4) ==> !#[trigger] row_references(
                    *db,
                    t4,
                    r4,
                    t3,
                    r3,
                ),
        decreases deps@.len() - k,
    {
        let (dt, dr) = deps[k];
        let ghost before = *db;
        let res = handle_drop(db, dt, dr);
        proof {
            if res is Err {
                assert(*db == before);
            } else {
                lemma_rows_sub_trans(pre, before, *db);
                lemma_total_le(before, *db);
                // the target stays absent:
                assert(db.tables@[table_id as int - 1].data@[object_id as int - 1] is None) by {
                    if db.tables@[table_id as int - 1].data@[object_id as int - 1] is Some {
                        assert(db.tables@[table_id as int - 1].data@[object_id as int - 1]
                            == before.tables@[table_id as int - 1].data@[object_id as int - 1]);
                    }
                }
                // the processed dependent reaches the target in one step:
                assert(row_references(pre, dt, dr, table_id, object_id));
                assert(reaches(pre, table_id, object_id, table_id, object_id, 0));
                assert(reaches(pre, dt, dr, table_id, object_id, 1));
                // rows removed by the recursive call are in the target's cascade:
                assert forall|t2: u64, r2: u64|
                    db_has_row(pre, t2, r2) && !db_has_row(*db, t2, r2) implies #[trigger] in_cascade(
                    pre,
                    t2,
                    r2,
                    table_id,
                    object_id,
                ) by {
                    if db_has_row(before, t2, r2) {
                        // removed by the recursive call
                        assert(in_cascade(before, t2, r2, dt, dr));
                        let n = choose|n: nat| reaches(before, t2, r2, dt, dr, n);
                        lemma_reaches_sub(pre, before, t2, r2, dt, dr, n);
                        lemma_reaches_trans(
                            pre,
                            t2,
                            r2,
                            dt,
                            dr,
                            table_id,
                            object_id,
                            n,
                            1,
                        );
                    }
                }
                // pending dependents only shrink, and the one just handled is gone:
                assert forall|t2: u64, r2: u64|
                    db_has_row(*db, t2, r2) && #[trigger] row_references(
                        pre,
                        t2,
                        r2,
                        table_id,
                        object_id,
                    ) implies exists|k2: int|
                    k + 1 <= k2 < deps@.len() && #[trigger] deps@[k2] == (t2, r2) by {
                    assert(db_has_row(before, t2, r2)) by {
                        assert(db.tables@[t2 as int - 1].data@[r2 as int - 1]
                            == before.tables@[t2 as int - 1].data@[r2 as int - 1]);
                    }
                    let k2 = choose|k2: int|
                        k <= k2 < deps@.len() && #[trigger] deps@[k2] == (t2, r2);
                    if k2 == k {
                        // then (t2, r2) is the dependent just deleted, which is absent
                        assert(in_cascade(before, t2, r2, dt, dr)) by {
                            assert(reaches(before, t2, r2, dt, dr, 0));
                        }
                        assert(!db_has_row(*db, t2, r2));
                        assert(false);
                    }
                }
                // closedness: nothing still present references a removed row
                assert forall|t3: u64, r3: u64, t4: u64, r4: u64|
                    db_has_row(pre, t3, r3) && !db_has_row(*db, t3, r3) && !(t3 == table_id && r3
                        == object_id) && db_has_row(*db, t4, r4) implies !#[trigger] row_references(
                    *db,
                    t4,
                    r4,
                    t3,
                    r3,
                ) by {
                    if row_references(*db, t4, r4, t3, r3) {
                        lemma_row_references_sub(before, *db, t4, r4, t3, r3);
                        assert(db_has_row(before, t4, r4));
                        if db_has_row(before, t3, r3) {
                            // (t3, r3) was removed by the recursive call, so
                            // everything referencing it was removed as well
                            assert(in_cascade(before, t3, r3, dt, dr));
                            let m = choose|m: nat| reaches(before, t3, r3, dt, dr, m);
                            assert(reaches(before, t4, r4, t3, r3, 1)) by {
                                assert(reaches(before, t3, r3, t3, r3, 0));
                            }
                            lemma_reaches_trans(before, t4, r4, t3, r3, dt, dr, 1, m);
                            assert(in_cascade(before, t4, r4, dt, dr));
                            assert(!db_has_row(*db, t4, r4));
                            assert(false);
                        } else {
                            // removed earlier: the invariant already forbade this
                            assert(row_references(before, t4, r4, t3, r3));
                            assert(false);
                        }
                    }
                }
            }
        }
        k = k + 1;
    }
    proof {
        // closedness now holds for the target too: no pending dependents remain
        assert forall|t3: u64, r3: u64, t4: u64, r4: u64|
            db_has_row(pre, t3, r3) && !db_has_row(*db, t3, r3) && db_has_row(*db, t4, r4)
                implies !#[trigger] row_references(*db, t4, r4, t3, r3) by {
            if row_references(*db, t4, r4, t3, r3) {
                if t3 == table_id && r3 == object_id {
                    lemma_row_references_sub(pre, *db, t4, r4, t3, r3);
                    assert(exists|k2: int|
                        deps@.len() <= k2 < deps@.len() && #[trigger] deps@[k2] == (t4, r4));
                    assert(false);
                }
            }
        }
        lemma_cascade_all_removed(pre, *db, table_id, object_id);
        if db_ri(pre) {
            lemma_ri_preserved(pre, *db);
        }
    }
    Ok(Response::Drop)
}

} // verus!
