//! The schema tab of a table: its columns and indexes, as the rows of two lists.

use vstd::prelude::*;
use crate::db::types::{Column, Index};
use crate::strings::{concat3, decimal, join, joined, u64_to_decimal, views};

verus! {

/// The schema of one table, once loaded.
pub struct SchemaView {
    pub database: String,
    pub table_name: String,
    pub columns: Vec<Column>,
    pub indexes: Vec<Index>,
    pub loading: bool,
}

/// The texts of one row of the column list: name, type, nullable, default,
/// key and extra.
pub struct ColumnRow {
    pub name: String,
    pub data_type: String,
    pub nullable: String,
    pub default_value: String,
    pub key: String,
    pub extra: String,
}

/// The texts of one row of the index list: name, columns and uniqueness.
pub struct IndexRow {
    pub name: String,
    pub columns: String,
    pub unique: String,
}

/// A section heading: the title with its opening bracket, the number of items,
/// and the closing bracket.
pub open spec fn heading_text(title_open: Seq<char>, n: nat) -> Seq<char> {
    title_open + decimal(n) + ")"@
}

impl SchemaView {
    /// The schema of `table_name` in `database`, still loading.
    pub fn new(database: String, table_name: String) -> (r: SchemaView)
        ensures
            r.database == database,
            r.table_name == table_name,
            r.columns@.len() == 0,
            r.indexes@.len() == 0,
            r.loading,
    {
        SchemaView { database, table_name, columns: Vec::new(), indexes: Vec::new(), loading: true }
    }

    /// Shows the loaded columns and indexes.
    pub fn set_schema(&mut self, columns: Vec<Column>, indexes: Vec<Index>)
        ensures
            final(self).columns@ == columns@,
            final(self).indexes@ == indexes@,
            !final(self).loading,
            final(self).database == old(self).database,
            final(self).table_name == old(self).table_name,
    {
        self.columns = columns;
        self.indexes = indexes;
        self.loading = false;
    }

    /// The heading of the column list: "Columns (n)".
    pub fn columns_heading(&self) -> (r: String)
        ensures
            r@ == heading_text("Columns ("@, self.columns@.len()),
    {
        let n = u64_to_decimal(self.columns.len() as u64);
        concat3("Columns (", n.as_str(), ")")
    }

    /// The heading of the index list: "Indexes (n)".
    pub fn indexes_heading(&self) -> (r: String)
        ensures
            r@ == heading_text("Indexes ("@, self.indexes@.len()),
    {
        let n = u64_to_decimal(self.indexes.len() as u64);
        concat3("Indexes (", n.as_str(), ")")
    }
}

/// The row of the column list for a column: "YES"/"NO" for nullable, the
/// default or "NULL", "PRI" for a primary key or nothing.
pub fn column_row(c: &Column) -> (r: ColumnRow)
    ensures
        r.name@ == c.name@,
        r.data_type@ == c.data_type@,
        r.nullable@ == (if c.nullable { "YES"@ } else { "NO"@ }),
        r.default_value@ == (match c.default_value { Some(d) => d@, None => "NULL"@ }),
        r.key@ == (if c.is_primary_key { "PRI"@ } else { ""@ }),
        r.extra@ == c.extra@,
{
    ColumnRow {
        name: c.name.clone(),
        data_type: c.data_type.clone(),
        nullable: if c.nullable { String::from_str("YES") } else { String::from_str("NO") },
        default_value: match &c.default_value {
            Some(d) => d.clone(),
            None => String::from_str("NULL"),
        },
        key: if c.is_primary_key { String::from_str("PRI") } else { String::from_str("") },
        extra: c.extra.clone(),
    }
}

/// The row of the index list for an index: its columns joined by ", ", and
/// "UNIQUE" or nothing.
pub fn index_row(ix: &Index) -> (r: IndexRow)
    ensures
        r.name@ == ix.name@,
        r.columns@ == joined(views(ix.columns@), ", "@),
        r.unique@ == (if ix.unique { "UNIQUE"@ } else { ""@ }),
{
    IndexRow {
        name: ix.name.clone(),
        columns: join(&ix.columns, ", "),
        unique: if ix.unique { String::from_str("UNIQUE") } else { String::from_str("") },
    }
}

} // verus!
