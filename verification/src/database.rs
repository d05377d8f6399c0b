//! The data model of the record store: values, columns, rows, tables and the
//! store itself, together with the spec-level view of table contents and the
//! well-formedness and referential-integrity invariants.

use vstd::prelude::*;

verus! {

/// The type of one column of a table. A foreign-reference column carries the
/// identifier of the table its values point into.
#[derive(Clone, Copy, PartialEq, Eq, Structural, Debug)]
pub enum Column {
    Integer,
    Float,
    Text,
    Foreign(u64),
}

/// One stored value: a tagged union over null, integer, float, text and
/// foreign key. The store never interprets a float's numeric value, only its
/// type tag, so the payload of `Float` is the raw bit pattern of the number.
#[derive(PartialEq, Debug)]
pub enum Value {
    Null,
    Integer(i64),
    Float(u64),
    Text(String),
    Foreign(u64),
}

/// One record of a table: a version number (1 on creation, incremented by
/// exactly 1 on every successful update) and one value per column.
pub struct Row {
    pub version: u64,
    pub values: Vec<Value>,
}

/// A table: its column list, its rows, and the row-id counter.
///
/// Row identifiers are assigned sequentially starting at 1 and are never
/// reused, so the rows live in a vector indexed by `id - 1`; a deleted row
/// leaves `None` in its slot. The counter `count` always equals the length
/// of `data`.
pub struct Table {
    pub info: Vec<Column>,
    pub data: Vec<Option<Row>>,
    pub count: u64,
}

/// The record store: all tables, where table `t` (1-based) is `tables[t - 1]`.
pub struct Database {
    pub tables: Vec<Table>,
}

/// The error taxonomy surfaced to callers.
#[derive(Clone, Copy, PartialEq, Eq, Structural, Debug)]
pub enum DbError {
    UnknownTable,
    RowShapeMismatch,
    TypeMismatch,
    DanglingForeignKey,
    NotFound,
    VersionConflict,
    NotSupported,
}

impl Clone for Value {
    /// A copy of the value, equal to the original.
    fn clone(&self) -> (res: Self)
        ensures
            res == *self,
    {
        match self {
            Value::Null => Value::Null,
            Value::Integer(i) => Value::Integer(*i),
            Value::Float(bits) => Value::Float(*bits),
            Value::Text(s) => Value::Text(s.clone()),
            Value::Foreign(id) => Value::Foreign(*id),
        }
    }
}

/// Table identifiers are positive and assigned in schema order.
pub open spec fn table_exists(db: Database, t: u64) -> bool {
    1 <= t && t <= db.tables@.len()
}

/// The table named by identifier `t`.
pub open spec fn table_at(db: Database, t: u64) -> Table {
    db.tables@[t as int - 1]
}

/// Row `id` is present in table `tb`.
pub open spec fn has_row(tb: Table, id: u64) -> bool {
    1 <= id && id <= tb.data@.len() && tb.data@[id as int - 1] is Some
}

/// The row stored under `id` in table `tb`.
pub open spec fn row_at(tb: Table, id: u64) -> Row {
    tb.data@[id as int - 1]->0
}

/// Row `id` of table `t` is present in the store.
pub open spec fn db_has_row(db: Database, t: u64, id: u64) -> bool {
    table_exists(db, t) && has_row(table_at(db, t), id)
}

/// The row stored under identifier `id` in table `t`.
pub open spec fn db_row(db: Database, t: u64, id: u64) -> Row {
    row_at(table_at(db, t), id)
}

/// A non-null value carries the same type tag as its column.
pub open spec fn value_fits(c: Column, v: Value) -> bool {
    match v {
        Value::Null => true,
        Value::Integer(_) => c is Integer,
        Value::Float(_) => c is Float,
        Value::Text(_) => c is Text,
        Value::Foreign(_) => c is Foreign,
    }
}

/// A foreign-key value stored under a foreign-reference column points at a
/// row that exists in the referenced table.
pub open spec fn value_ref_live(db: Database, c: Column, v: Value) -> bool {
    c matches Column::Foreign(t2) ==> v matches Value::Foreign(rid) ==> db_has_row(db, t2, rid)
}

/// Structural well-formedness of one table: the counter mirrors the slot
/// vector, and every present row has one type-correct value per column and a
/// positive version.
pub open spec fn table_wf(tb: Table) -> bool {
    &&& tb.count == tb.data@.len()
    &&& forall|i: int|
        0 <= i < tb.data@.len() && (#[trigger] tb.data@[i]) is Some ==> {
            &&& (tb.data@[i]->0).values@.len() == tb.info@.len()
            &&& (tb.data@[i]->0).version >= 1
            &&& forall|j: int|
                0 <= j < tb.info@.len() ==> value_fits(
                    tb.info@[j],
                    #[trigger] (tb.data@[i]->0).values@[j],
                )
        }
}

/// Structural well-formedness of the whole store.
pub open spec fn db_wf(db: Database) -> bool {
    forall|i: int| 0 <= i < db.tables@.len() ==> table_wf(#[trigger] db.tables@[i])
}

/// Referential integrity: every foreign-key value stored anywhere in the
/// store identifies a row that currently exists in its referenced table.
pub open spec fn db_ri(db: Database) -> bool {
    forall|t: u64, id: u64, j: int|
        db_has_row(db, t, id) && 0 <= j < table_at(db, t).info@.len() ==> value_ref_live(
            db,
            table_at(db, t).info@[j],
            #[trigger] db_row(db, t, id).values@[j],
        )
}

impl Database {
    /// Builds the store from the schema: one empty table per definition,
    /// identified 1, 2, ... in declaration order.
    pub fn new(schema_tables: Vec<Vec<Column>>) -> (db: Database)
        ensures
            db.tables@.len() == schema_tables@.len(),
            forall|i: int|
                0 <= i < schema_tables@.len() ==> {
                    &&& (#[trigger] db.tables@[i]).info == schema_tables@[i]
                    &&& db.tables@[i].data@.len() == 0
                    &&& db.tables@[i].count == 0
                },
            db_wf(db),
            db_ri(db),
    {
        let ghost schema = schema_tables@;
        let mut remaining = schema_tables;
        let mut construct: Vec<Table> = Vec::new();
        while remaining.len() > 0
            invariant
                construct@.len() + remaining@.len() == schema.len(),
                forall|i: int|
                    0 <= i < remaining@.len() ==> remaining@[i] == schema[construct@.len() + i],
                forall|i: int|
                    0 <= i < construct@.len() ==> {
                        &&& (#[trigger] construct@[i]).info == schema[i]
                        &&& construct@[i].data@.len() == 0
                        &&& construct@[i].count == 0
                    },
            decreases remaining@.len(),
        {
            let entry = remaining.remove(0);
            construct.push(Table { info: entry, data: Vec::new(), count: 0 });
        }
        Database { tables: construct }
    }
}

} // verus!
