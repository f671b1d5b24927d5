//! Column descriptors, table snapshots and fetched results.
use vstd::prelude::*;

use crate::text::{starts_with_str, str_eq};
use crate::values::{TaggedValue, ValModel};

verus! {

/// One column: its name, its declared type label, and nullability.
#[derive(Clone, Debug)]
pub struct PostgresColumn {
    pub name: String,
    pub data_type: String,
    pub is_nullable: bool,
}

/// The mathematical shape of a column descriptor.
#[verifier::ext_equal]
pub struct ColModel {
    pub name: Seq<char>,
    pub data_type: Seq<char>,
    pub is_nullable: bool,
}

impl View for PostgresColumn {
    type V = ColModel;

    open spec fn view(&self) -> ColModel {
        ColModel { name: self.name@, data_type: self.data_type@, is_nullable: self.is_nullable }
    }
}

impl PostgresColumn {
    /// Build a descriptor from the catalog's textual nullability, where
    /// only the exact label `NO` means not nullable.
    pub fn from_catalog(name: String, data_type: String, nullable_label: &str) -> (r:
        PostgresColumn)
        ensures
            r@.name == name@,
            r@.data_type == data_type@,
            r@.is_nullable == (nullable_label@ != "NO"@),
    {
        let is_nullable = !str_eq(nullable_label, "NO");
        PostgresColumn { name, data_type, is_nullable }
    }
}

/// One table's full in-memory snapshot: name, schema, and row data.
/// Rows are positionally aligned to the order the columns were
/// discovered, and may be shorter than the column list (sparse rows).
#[derive(Debug)]
pub struct PostgresTable {
    pub columns: Vec<PostgresColumn>,
    pub data: Vec<Vec<TaggedValue>>,
    pub name: String,
}

/// The mathematical shape of a table snapshot.
#[verifier::ext_equal]
pub struct TableModel {
    pub name: Seq<char>,
    pub columns: Seq<ColModel>,
    pub data: Seq<Seq<ValModel>>,
}

impl View for PostgresTable {
    type V = TableModel;

    open spec fn view(&self) -> TableModel {
        TableModel {
            name: self.name@,
            columns: self.columns@.map_values(|c: PostgresColumn| c@),
            data: self.data@.map_values(|r: Vec<TaggedValue>| r.deep_view()),
        }
    }
}

/// The empty, unnamed snapshot: the decoder's "no table open" state.
pub open spec fn empty_table_model() -> TableModel {
    TableModel { name: Seq::<char>::empty(), columns: Seq::empty(), data: Seq::empty() }
}

impl PostgresTable {
    /// The empty-name, empty-columns, empty-rows state; an empty name is
    /// the decoder's sentinel for "nothing to flush".
    pub fn new() -> (r: PostgresTable)
        ensures
            r@ == empty_table_model(),
    {
        let r = PostgresTable { columns: Vec::new(), data: Vec::new(), name: String::new() };
        proof {
            assert(r@ =~~= empty_table_model());
        }
        r
    }
}

/// The view of a sequence of snapshots.
pub open spec fn tables_view(v: Seq<PostgresTable>) -> Seq<TableModel> {
    v.map_values(|t: PostgresTable| t@)
}

/// What one live fetch returned: the column names in fetch order and the
/// typed rows aligned to that order.
#[derive(Debug)]
pub struct PostgresResult {
    pub columns: Vec<String>,
    pub rows: Vec<Vec<TaggedValue>>,
}

impl View for PostgresResult {
    type V = (Seq<Seq<char>>, Seq<Seq<ValModel>>);

    open spec fn view(&self) -> (Seq<Seq<char>>, Seq<Seq<ValModel>>) {
        (self.columns.deep_view(), self.rows@.map_values(|r: Vec<TaggedValue>| r.deep_view()))
    }
}

/// Whether a catalog table name is carried by the full export: internal
/// names beginning `pg_` are left out.
pub fn is_exported_table_name(name: &str) -> (r: bool)
    ensures
        r == !crate::text::is_prefix("pg_"@, name@),
{
    !starts_with_str(name, "pg_")
}

} // verus!
