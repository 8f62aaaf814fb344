//! The pager of the multi-table design: the header of the database file and
//! its master table, which leads from the name of a table to the page where
//! the table starts.
//!
//! The first `HEADER_LENGTH` bytes of the file are the header; the page size
//! stands in it as two bytes, most significant first. The rest of the first
//! page is the master table. This design is a draft: only a master table
//! without entries can be opened.

use crate::db::Table;
use vstd::prelude::*;

verus! {

/// Size of a page in bytes.
pub const PAGE_SIZE: u16 = 4096;

/// Where the page size stands in the header.
pub const PAGE_SIZE_OFFSET: usize = 32;

/// How many bytes the page size takes in the header.
pub const PAGE_SIZE_LENGTH: usize = 2;

/// Where the text encoding stands in the header.
pub const TEXT_ENCODING_OFFSET: usize = 56;

/// How many bytes the text encoding takes in the header.
pub const TEXT_ENCODING_LENGTH: usize = 4;

/// Length of the header.
pub const HEADER_LENGTH: usize = 100;

/// Where the master table starts.
pub const MASTER_TABLE_OFFSET: usize = HEADER_LENGTH;

/// The most bytes the master table can take.
pub const MASTER_TABLE_MAX_SIZE: usize = 4096 - MASTER_TABLE_OFFSET;

/// Bytes of the key of an entry of the master table.
pub const MASTER_TABLE_KEY_SIZE: usize = 100;

/// Bytes reserved for the value of an entry of the master table.
pub const MASTER_TABLE_VALUE_SIZE: usize = 32;

/// Bytes of one entry of the master table.
pub const MASTER_TABLE_ENTRY_SIZE: usize = MASTER_TABLE_KEY_SIZE + MASTER_TABLE_VALUE_SIZE;

/// A page of the multi-table design: its number and the table it belongs to.
#[derive(Debug)]
pub struct Page {
    pub num: u32,
    pub table: Table,
}

/// The header values and the master table of a database file.
#[derive(Debug)]
pub struct Pager {
    pub page_size: u16,
    pub master_table: Vec<(String, u32)>,
    pub pages: Vec<Page>,
}

/// The byte at index `i` of what a read of the file gives: the byte of the
/// file where it has one, zero after its end.
pub open spec fn byte_or_zero(bytes: Seq<u8>, i: int) -> u8 {
    if 0 <= i < bytes.len() {
        bytes[i]
    } else {
        0u8
    }
}

/// The page size that stands in the header `bytes`.
pub open spec fn stored_page_size(bytes: Seq<u8>) -> u16 {
    (byte_or_zero(bytes, PAGE_SIZE_OFFSET as int) as int * 256 + byte_or_zero(
        bytes,
        PAGE_SIZE_OFFSET + 1,
    ) as int) as u16
}

/// The first entry of the master table in `bytes` is all zero, which ends
/// the table before its first entry.
pub open spec fn master_table_empty(bytes: Seq<u8>) -> bool {
    forall|i: int|
        MASTER_TABLE_OFFSET <= i < MASTER_TABLE_OFFSET + MASTER_TABLE_ENTRY_SIZE ==> byte_or_zero(
            bytes,
            i,
        ) == 0
}

/// The first page of a new database file: all zero, but for the page size.
pub open spec fn fresh_header_spec() -> Seq<u8> {
    Seq::new(
        PAGE_SIZE as nat,
        |i: int|
            if i == PAGE_SIZE_OFFSET {
                (PAGE_SIZE / 256) as u8
            } else if i == PAGE_SIZE_OFFSET + 1 {
                (PAGE_SIZE % 256) as u8
            } else {
                0u8
            },
    )
}

/// The first page to write to a new database file.
pub fn fresh_header() -> (bytes: Vec<u8>)
    ensures
        bytes@ == fresh_header_spec(),
        stored_page_size(bytes@) == PAGE_SIZE,
        master_table_empty(bytes@),
{
    let mut bytes: Vec<u8> = Vec::new();
    let mut i: usize = 0;
    while i < 4096
        invariant
            i <= 4096,
            bytes@.len() == i,
            forall|k: int| 0 <= k < i ==> bytes@[k] == fresh_header_spec()[k],
        decreases 4096 - i,
    {
        let b: u8 = if i == PAGE_SIZE_OFFSET {
            (PAGE_SIZE / 256) as u8
        } else if i == PAGE_SIZE_OFFSET + 1 {
            (PAGE_SIZE % 256) as u8
        } else {
            0u8
        };
        bytes.push(b);
        i = i + 1;
    }
    assert(bytes@ =~= fresh_header_spec());
    bytes
}

/// Tells whether the master table in `bytes` ends before its first entry.
pub fn is_master_table_empty(bytes: &[u8]) -> (empty: bool)
    ensures
        empty == master_table_empty(bytes@),
{
    let mut i: usize = MASTER_TABLE_OFFSET;
    while i < MASTER_TABLE_OFFSET + MASTER_TABLE_ENTRY_SIZE
        invariant
            MASTER_TABLE_OFFSET <= i <= MASTER_TABLE_OFFSET + MASTER_TABLE_ENTRY_SIZE,
            forall|k: int| MASTER_TABLE_OFFSET <= k < i ==> byte_or_zero(bytes@, k) == 0,
        decreases MASTER_TABLE_OFFSET + MASTER_TABLE_ENTRY_SIZE - i,
    {
        if i < bytes.len() && bytes[i] != 0 {
            assert(byte_or_zero(bytes@, i as int) != 0);
            return false;
        }
        i = i + 1;
    }
    true
}

impl Pager {
    /// The pager of a database file. `stored` is the first page of the file
    /// as it was read, or `None` for a file that has just been made, which
    /// gets the page size `PAGE_SIZE`. The master table has no entries.
    pub fn new(stored: Option<&[u8]>) -> (pager: Pager)
        requires
            stored is Some ==> master_table_empty(stored->0@),
        ensures
            pager.page_size == match stored {
                Some(bytes) => stored_page_size(bytes@),
                None => PAGE_SIZE,
            },
            pager.master_table@.len() == 0,
            pager.pages@.len() == 0,
    {
        let page_size: u16 = match stored {
            None => PAGE_SIZE,
            Some(bytes) => {
                let high: u16 = if PAGE_SIZE_OFFSET < bytes.len() {
                    bytes[PAGE_SIZE_OFFSET] as u16
                } else {
                    0
                };
                let low: u16 = if PAGE_SIZE_OFFSET + 1 < bytes.len() {
                    bytes[PAGE_SIZE_OFFSET + 1] as u16
                } else {
                    0
                };
                high * 256 + low
            },
        };
        Pager { page_size, master_table: Vec::new(), pages: Vec::new() }
    }

    /// The entries of the master table: the name of each table and the page
    /// where it starts.
    pub fn get_tables(&self) -> (tables: Vec<(&str, u32)>)
        ensures
            tables@.len() == self.master_table@.len(),
            forall|i: int|
                0 <= i < tables@.len() ==> (#[trigger] tables@[i]).0@ == self.master_table@[i].0@
                    && tables@[i].1 == self.master_table@[i].1,
    {
        let mut tables: Vec<(&str, u32)> = Vec::new();
        let mut i: usize = 0;
        while i < self.master_table.len()
            invariant
                i <= self.master_table@.len(),
                tables@.len() == i,
                forall|k: int|
                    0 <= k < i ==> (#[trigger] tables@[k]).0@ == self.master_table@[k].0@
                        && tables@[k].1 == self.master_table@[k].1,
            decreases self.master_table@.len() - i,
        {
            let entry = &self.master_table[i];
            tables.push((entry.0.as_str(), entry.1));
            i = i + 1;
        }
        tables
    }

    /// The bytes of the page where the table `table_name` starts. The draft
    /// finds no page yet: the result is empty.
    pub fn find_page(&self, table_name: &str) -> (page: Vec<u8>)
        ensures
            page@.len() == 0,
    {
        Vec::new()
    }
}

} // verus!
