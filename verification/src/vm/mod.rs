//! The query language: tokens, statements and their execution.

pub mod parser;
pub mod tokenizer;

use crate::db::{Row, DB};
use crate::vm::parser::{QueryType, Stmt};
use vstd::prelude::*;

verus! {

/// Carries out statements of the query language on a database.
#[derive(Debug)]
pub struct VM {
    pub db: DB,
}

/// What carrying out a statement gave: rows, where the statement reads some,
/// and whether it succeeded.
#[derive(Debug)]
pub struct ExecuteResult {
    pub rows: Option<Vec<Row>>,
    pub success: bool,
}

impl ExecuteResult {
    /// The result of a statement that succeeded and read `rows`.
    pub fn with_rows(rows: Vec<Row>) -> (result: ExecuteResult)
        ensures
            result.rows == Some(rows),
            result.success,
    {
        ExecuteResult { rows: Some(rows), success: true }
    }

    /// The result of a statement that reads no rows.
    pub fn without_rows(success: bool) -> (result: ExecuteResult)
        ensures
            result.rows is None,
            result.success == success,
    {
        ExecuteResult { rows: None, success }
    }
}

impl VM {
    /// A machine over the database `db`.
    pub fn new(db: DB) -> (vm: VM)
        ensures
            vm.db == db,
    {
        VM { db }
    }

    /// Carries out `stmt`. A select reads the rows of its table and
    /// succeeds; every other kind of statement fails.
    pub fn execute(&mut self, stmt: Stmt) -> (result: ExecuteResult)
        ensures
            final(self).db == old(self).db,
            stmt.query_type == QueryType::Select ==> result.success && result.rows is Some
                && result.rows->0@.len() == 0,
            stmt.query_type != QueryType::Select ==> !result.success && result.rows is None,
    {
        match stmt.query_type {
            QueryType::Select => ExecuteResult::with_rows(self.db.get_rows(stmt.table.as_str())),
            _ => ExecuteResult::without_rows(false),
        }
    }
}

} // verus!
