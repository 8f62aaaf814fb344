//! What holds of slots, of the file layout and of closing and reopening.

use crate::codec::lemma_decode_encode;
use crate::consts::{lemma_layout, PAGE_SIZE, ROWS_PER_PAGE, ROW_SIZE, TABLE_MAX_PAGES};
use crate::parsing::RowView;
use crate::table::pager::file_page;
use crate::table::layout::{
    count_recoverable, file_holds, image_len, lemma_file_page_len, len_fits, max_rows,
    row_file_offset, row_slot_spec, stored_rows,
};
use crate::table::Table;
use vstd::prelude::*;

verus! {

/// The rows of the first page lie one after the other from byte 0, each
/// `ROW_SIZE` bytes after the one before; the row after them is the first of
/// the second page.
pub proof fn lemma_first_page_slots()
    ensures
        forall|n: int|
            0 <= n < ROWS_PER_PAGE ==> #[trigger] row_slot_spec(n) == (0int, n * ROW_SIZE),
        row_slot_spec(ROWS_PER_PAGE as int) == (1int, 0int),
{
    lemma_layout();
}

/// From any row to the next, the slot moves on by `ROW_SIZE` bytes in the
/// same page, or, after the last row of a page, to byte 0 of the next page.
pub proof fn lemma_next_slot(n: int)
    requires
        0 <= n,
    ensures
        row_slot_spec(n + 1) == if (n + 1) % (ROWS_PER_PAGE as int) == 0 {
            (row_slot_spec(n).0 + 1, 0int)
        } else {
            (row_slot_spec(n).0, row_slot_spec(n).1 + ROW_SIZE)
        },
        0 <= row_slot_spec(n).1,
        row_slot_spec(n).1 + ROW_SIZE <= ROWS_PER_PAGE * ROW_SIZE <= PAGE_SIZE,
{
    lemma_layout();
}

/// No two rows share a byte of the file: a later row starts where an earlier
/// one has ended, or after that.
pub proof fn lemma_slots_disjoint(m: int, n: int)
    requires
        0 <= m < n,
    ensures
        row_file_offset(m) + ROW_SIZE <= row_file_offset(n),
{
    lemma_layout();
}

/// A table is full exactly when its next row would fall in a page number
/// that has no slot.
pub proof fn lemma_full_table(num_rows: int)
    requires
        0 <= num_rows,
    ensures
        num_rows >= max_rows() <==> row_slot_spec(num_rows).0 >= TABLE_MAX_PAGES,
{
    lemma_layout();
}

/// A file that holds `rows`, and whose length counts as many rows as it
/// holds, is read back as `rows` when it is opened.
pub proof fn lemma_reopen(file: Seq<u8>, rows: Seq<RowView>)
    requires
        file_holds(file, rows),
        file.len() / (ROW_SIZE as nat) == rows.len(),
    ensures
        stored_rows(file) == rows,
{
    lemma_layout();
    let n = rows.len() as int;
    assert forall|i: int| 0 <= i < n implies stored_rows(file)[i] == rows[i] by {
        let q = row_slot_spec(i).0;
        let o = row_slot_spec(i).1;
        lemma_file_page_len(file, q);
        assert(rows[i].wf());
        let b = file.subrange(row_file_offset(i), row_file_offset(i) + ROW_SIZE);
        assert(b == crate::codec::encode_spec(rows[i]));
        lemma_decode_encode(rows[i]);
        assert(row_file_offset(i) + ROW_SIZE <= file.len());
        assert(file_page(file, q).subrange(o, o + ROW_SIZE) =~= b);
    }
    assert(stored_rows(file) =~= rows);
}

/// The length of a file that ends with its last row counts the rows it
/// holds exactly when the padding before the last row stays under one row.
pub proof fn lemma_count_recoverable(num_rows: int)
    requires
        0 <= num_rows,
    ensures
        image_len(num_rows) / (ROW_SIZE as int) == num_rows <==> count_recoverable(num_rows),
        len_fits(image_len(num_rows), num_rows),
{
    lemma_layout();
    if num_rows > 0 {
        let k = (num_rows - 1) / (ROWS_PER_PAGE as int);
        let m = (num_rows - 1) % (ROWS_PER_PAGE as int);
        assert(num_rows == k * ROWS_PER_PAGE + m + 1);
        assert(image_len(num_rows) == ROW_SIZE * num_rows + k * (PAGE_SIZE - ROWS_PER_PAGE
            * ROW_SIZE));
    }
}

/// Persistence: a file that holds `rows` and ends with the last of them, as
/// closing leaves it after an insert, is read back as the same rows in the
/// same order, as long as the padding before the last row stays under one
/// row.
pub proof fn lemma_persistence(file: Seq<u8>, rows: Seq<RowView>)
    requires
        file_holds(file, rows),
        file.len() == image_len(rows.len() as int),
        count_recoverable(rows.len() as int),
    ensures
        file.len() / (ROW_SIZE as nat) == rows.len(),
        stored_rows(file) == rows,
{
    lemma_count_recoverable(rows.len() as int);
    lemma_reopen(file, rows);
}

/// Closing and reopening: when a table is aligned and compact, and the
/// padding before its last row stays under one row, the file that closing
/// leaves counts the rows of the table and is read back as those rows.
pub proof fn lemma_close_then_open(table: Table)
    requires
        table.wf(),
        table.aligned(),
        table.compact(),
        count_recoverable(table.num_rows() as int),
    ensures
        table.closed_file().len() / (ROW_SIZE as nat) == table.num_rows(),
        stored_rows(table.closed_file()) == table@,
{
    table.lemma_closed_file_holds();
    table.lemma_rows_len();
    lemma_persistence(table.closed_file(), table@);
}

} // verus!
