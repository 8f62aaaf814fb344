//! The multi-table design: a database of named tables with typed columns.
//! It is a draft: tables can be listed, but none holds rows yet.

pub mod pager;

use crate::db::pager::Pager;
use vstd::prelude::*;

verus! {

/// The header values of a database.
#[derive(Debug)]
pub struct Headers;

/// The type of the values of a column.
#[derive(Debug)]
pub enum DataType {
    VarChar,
    Int,
    Float,
    Bool,
}

/// A column: the type of its values and its name.
#[derive(Debug)]
pub struct Column {
    pub data_type: DataType,
    pub name: String,
}

/// A table: its name, its columns, the page where it starts and its rows.
#[derive(Debug)]
pub struct Table {
    pub name: String,
    pub columns: Vec<Column>,
    pub page_num: u32,
    pub rows: Vec<Row>,
}

/// A row: its identifier and its columns.
#[derive(Debug)]
pub struct Row {
    pub id: u32,
    pub cols: Vec<Column>,
}

/// A database over a pager.
#[derive(Debug)]
pub struct DB {
    pub headers: Headers,
    pub pager: Pager,
}

impl DB {
    /// The database that `pager` stands for.
    pub fn new(pager: Pager) -> (db: DB)
        ensures
            db.pager == pager,
    {
        DB { headers: Headers, pager }
    }

    /// The name of each table and the page where it starts.
    pub fn get_tables(&self) -> (tables: Vec<(&str, u32)>)
        ensures
            tables@.len() == self.pager.master_table@.len(),
            forall|i: int|
                0 <= i < tables@.len() ==> (#[trigger] tables@[i]).0@
                    == self.pager.master_table@[i].0@ && tables@[i].1 == self.pager.master_table@[i].1,
    {
        self.pager.get_tables()
    }

    /// The rows of the table `table`. No table holds rows yet: the result
    /// is empty.
    pub fn get_rows(&self, table: &str) -> (rows: Vec<Row>)
        ensures
            rows@.len() == 0,
    {
        let _ = self.find_table(table);
        Vec::new()
    }

    /// The table named `name`. No table can be found yet: the result is `None`.
    pub fn find_table(&self, name: &str) -> (table: Option<Table>)
        ensures
            table is None,
    {
        let _ = self.pager.find_page(name);
        None
    }
}

} // verus!
