//! Sizes and offsets that fix the byte layout of rows and pages.

use vstd::prelude::*;

verus! {

/// Size of a page in bytes.
pub const PAGE_SIZE: usize = 4096;

/// Size of the id field of a row.
pub const ID_SIZE: usize = 4;

/// Size of the username field of a row.
pub const USERNAME_SIZE: usize = 32;

/// Size of the email field of a row.
pub const EMAIL_SIZE: usize = 255;

/// Size of one encoded row.
pub const ROW_SIZE: usize = ID_SIZE + USERNAME_SIZE + EMAIL_SIZE;

/// Number of whole rows that fit in one page.
pub const ROWS_PER_PAGE: usize = PAGE_SIZE / ROW_SIZE;

/// Largest number of pages a table can hold.
pub const TABLE_MAX_PAGES: usize = 100;

/// Offset of the id field inside an encoded row.
pub const ID_OFFSET: usize = 0;

/// Offset of the username field inside an encoded row.
pub const USERNAME_OFFSET: usize = ID_OFFSET + ID_SIZE;

/// Offset of the email field inside an encoded row.
pub const EMAIL_OFFSET: usize = USERNAME_OFFSET + USERNAME_SIZE;

/// The values that the definitions above come to.
pub proof fn lemma_layout()
    ensures
        PAGE_SIZE == 4096,
        ROW_SIZE == 291,
        ROWS_PER_PAGE == 14,
        ROWS_PER_PAGE * ROW_SIZE == 4074,
        TABLE_MAX_PAGES == 100,
        TABLE_MAX_PAGES * ROWS_PER_PAGE == 1400,
        ID_OFFSET == 0,
        USERNAME_OFFSET == 4,
        EMAIL_OFFSET == 36,
        EMAIL_OFFSET + EMAIL_SIZE == ROW_SIZE,
{
}

} // verus!
