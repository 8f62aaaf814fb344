//! The layout of a table in its file, as mathematics.
//!
//! The file is a run of pages of `PAGE_SIZE` bytes, the last one possibly
//! shorter, with no header. Each page holds whole rows packed from its first
//! byte; the bytes after the last row of a full page are padding.

use crate::codec::{decode_spec, encode_spec};
use crate::consts::{PAGE_SIZE, ROWS_PER_PAGE, ROW_SIZE, TABLE_MAX_PAGES};
use crate::parsing::RowView;
use crate::table::pager::{file_page, write_at_spec};
use vstd::prelude::*;

verus! {

/// The largest number of rows a table can hold.
pub open spec fn max_rows() -> int {
    TABLE_MAX_PAGES * ROWS_PER_PAGE
}

/// The slot of row `row_num`: its page number and its byte offset in that page.
pub open spec fn row_slot_spec(row_num: int) -> (int, int) {
    (row_num / (ROWS_PER_PAGE as int), (row_num % (ROWS_PER_PAGE as int)) * ROW_SIZE)
}

/// The offset in the file of the first byte of row `row_num`.
pub open spec fn row_file_offset(row_num: int) -> int {
    row_slot_spec(row_num).0 * PAGE_SIZE + row_slot_spec(row_num).1
}

/// The number of bytes that rows take in page `page_num` of a table of
/// `num_rows` rows.
pub open spec fn page_fill(num_rows: int, page_num: int) -> int {
    if num_rows >= (page_num + 1) * ROWS_PER_PAGE {
        ROWS_PER_PAGE * ROW_SIZE
    } else if num_rows <= page_num * ROWS_PER_PAGE {
        0
    } else {
        (num_rows - page_num * ROWS_PER_PAGE) * ROW_SIZE
    }
}

/// A file of `len` bytes can hold exactly `num_rows` rows: it ends where the
/// next row would start, or, where the last row fills its page, with that
/// row or in the padding after it.
pub open spec fn len_fits(len: int, num_rows: int) -> bool {
    if num_rows % (ROWS_PER_PAGE as int) > 0 {
        len == row_file_offset(num_rows)
    } else {
        row_file_offset(num_rows) - (PAGE_SIZE - ROWS_PER_PAGE * ROW_SIZE) <= len <= row_file_offset(num_rows)
    }
}

/// The layout of a persisted table: `file` holds `rows`, each encoded at the
/// offset of its slot, and ends where `len_fits` says.
pub open spec fn file_holds(file: Seq<u8>, rows: Seq<RowView>) -> bool {
    &&& rows.len() <= max_rows()
    &&& len_fits(file.len() as int, rows.len() as int)
    &&& forall|i: int|
        0 <= i < rows.len() ==> (#[trigger] rows[i]).wf() && file.subrange(
            row_file_offset(i),
            row_file_offset(i) + ROW_SIZE,
        ) == encode_spec(rows[i])
}

/// The rows that opening `file` finds: as many as its length counts, each
/// decoded from its slot.
pub open spec fn stored_rows(file: Seq<u8>) -> Seq<RowView> {
    Seq::new(
        file.len() / (ROW_SIZE as nat),
        |i: int|
            decode_spec(
                file_page(file, row_slot_spec(i).0).subrange(
                    row_slot_spec(i).1,
                    row_slot_spec(i).1 + ROW_SIZE,
                ),
            ),
    )
}

/// The length of the file that holds `num_rows` rows and ends with the last
/// of them.
pub open spec fn image_len(num_rows: int) -> int {
    if num_rows <= 0 {
        0
    } else {
        row_file_offset(num_rows - 1) + ROW_SIZE
    }
}

/// The padding at the ends of the pages before the last row is less than one
/// row, so that the length of the file still counts the rows.
pub open spec fn count_recoverable(num_rows: int) -> bool {
    num_rows <= 0 || ((num_rows - 1) / (ROWS_PER_PAGE as int)) * (PAGE_SIZE - ROWS_PER_PAGE
        * ROW_SIZE) < ROW_SIZE
}

/// The number of pages that hold rows in a table of `num_rows` rows: the
/// full pages and, where rows are left over, one partial page; never more
/// than there are slots.
pub open spec fn pages_in_use(num_rows: int) -> int {
    let pages = num_rows / (ROWS_PER_PAGE as int) + if num_rows % (ROWS_PER_PAGE as int) > 0 {
        1int
    } else {
        0int
    };
    if pages > TABLE_MAX_PAGES {
        TABLE_MAX_PAGES as int
    } else {
        pages
    }
}

/// The file after the loaded pages among the first `upto` have been written,
/// in the order of their numbers, each at `PAGE_SIZE` times its number.
pub open spec fn flushed_file(file: Seq<u8>, pages: Seq<Option<Vec<u8>>>, upto: int) -> Seq<u8>
    decreases upto,
{
    if upto <= 0 {
        file
    } else {
        let before = flushed_file(file, pages, upto - 1);
        if pages[upto - 1] is Some {
            write_at_spec(before, (upto - 1) * PAGE_SIZE, pages[upto - 1]->0@)
        } else {
            before
        }
    }
}

/// The length of a page of a file, from the length of the file.
pub proof fn lemma_file_page_len(file: Seq<u8>, page_num: int)
    requires
        0 <= page_num,
    ensures
        file_page(file, page_num).len() == if file.len() <= page_num * PAGE_SIZE {
            0
        } else if file.len() >= (page_num + 1) * PAGE_SIZE {
            PAGE_SIZE as int
        } else {
            file.len() - page_num * PAGE_SIZE
        },
        forall|k: int|
            0 <= k < file_page(file, page_num).len() ==> #[trigger] file_page(file, page_num)[k]
                == file[page_num * PAGE_SIZE + k],
{
}

} // verus!
