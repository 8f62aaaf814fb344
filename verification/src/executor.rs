//! Carrying out prepared statements on a table.

use crate::parsing::{Row, Stmt, StmtType, StmtView};
use crate::table::layout::max_rows;
use crate::table::{ExecuteError, Table};
use vstd::prelude::*;

verus! {

/// What a statement produced.
#[derive(Debug, PartialEq)]
pub enum ResultType {
    /// The rows of the table, in the order in which they were inserted.
    Select(Vec<Row>),
    /// The row was appended.
    Insert,
}

/// The outcome of a statement that was carried out.
#[derive(Debug, PartialEq)]
pub struct ExecuteResult {
    pub result_type: ResultType,
}

/// Carries out `stmt` on `table`. A select reads every row and leaves the
/// contents of the table as they were. An insert appends its row, or fails
/// with `TableFull` and changes nothing.
pub fn execute_stmt(stmt: Stmt, table: &mut Table) -> (result: Result<ExecuteResult, ExecuteError>)
    requires
        old(table).wf(),
        old(table).is_open(),
        old(table).aligned(),
    ensures
        final(table).wf(),
        final(table).is_open(),
        final(table).aligned(),
        final(table).file() == old(table).file(),
        match stmt@ {
            StmtView::Select => {
                &&& final(table)@ == old(table)@
                &&& final(table).num_rows() == old(table).num_rows()
                &&& result is Ok
                &&& result->Ok_0.result_type is Select
                &&& result->Ok_0.result_type->Select_0@.len() == old(table)@.len()
                &&& forall|i: int|
                    0 <= i < old(table)@.len() ==> (
                    #[trigger] result->Ok_0.result_type->Select_0@[i])@ == old(table)@[i]
            },
            StmtView::Insert(row) => if old(table).num_rows() < max_rows() {
                &&& result == Ok::<ExecuteResult, ExecuteError>(
                    ExecuteResult { result_type: ResultType::Insert },
                )
                &&& final(table)@ == old(table)@.push(row)
                &&& final(table).num_rows() == old(table).num_rows() + 1
            } else {
                &&& result == Err::<ExecuteResult, ExecuteError>(ExecuteError::TableFull)
                &&& *final(table) == *old(table)
            },
        },
{
    match stmt.stmt_type {
        StmtType::Select => {
            let rows = table.scan();
            Ok(ExecuteResult { result_type: ResultType::Select(rows) })
        },
        StmtType::Insert(row) => {
            match table.insert_row(&*row) {
                Ok(()) => Ok(ExecuteResult { result_type: ResultType::Insert }),
                Err(e) => Err(e),
            }
        },
    }
}

} // verus!
