//! The table: rows addressed by their position, stored page by page.
//!
//! Row number `n` lives in page `n / ROWS_PER_PAGE`, at byte
//! `(n % ROWS_PER_PAGE) * ROW_SIZE` of that page. Every read and every write
//! goes through this one formula. Rows are only ever appended.

pub mod laws;
pub mod layout;
pub mod pager;

use crate::codec::{
    decode, decode_spec, encode, encode_spec, lemma_decode_encode, lemma_encode_decode,
};
use crate::consts::{lemma_layout, PAGE_SIZE, ROWS_PER_PAGE, ROW_SIZE, TABLE_MAX_PAGES};
use crate::parsing::{Row, RowView};
use crate::table::layout::{
    file_holds, flushed_file, image_len, lemma_file_page_len, len_fits, max_rows,
    page_fill, pages_in_use, row_file_offset, row_slot_spec, stored_rows,
};
use crate::table::pager::{file_page, Pager, PagerError};
use vstd::prelude::*;

verus! {

/// Why a statement could not be carried out.
#[derive(Debug, Clone, Copy, PartialEq, Eq)]
pub enum ExecuteError {
    /// The table already holds as many rows as its pages can take.
    TableFull,
}

/// A table of rows over a pager.
#[derive(Debug)]
pub struct Table {
    num_rows: usize,
    pager: Pager,
    row_num: usize,
    end_of_table: bool,
    closed: bool,
}

impl View for Table {
    type V = Seq<RowView>;

    /// The rows of the table, in the order in which they were inserted.
    closed spec fn view(&self) -> Seq<RowView> {
        Seq::new(
            self.num_rows as nat,
            |i: int|
                decode_spec(
                    self.page_bytes(row_slot_spec(i).0).subrange(
                        row_slot_spec(i).1,
                        row_slot_spec(i).1 + ROW_SIZE,
                    ),
                ),
        )
    }
}

impl Table {
    /// The number of rows in the table.
    pub closed spec fn spec_num_rows(&self) -> usize {
        self.num_rows
    }

    /// The number of rows in the table.
    #[verifier::when_used_as_spec(spec_num_rows)]
    pub fn num_rows(&self) -> (n: usize)
        ensures
            n == self.spec_num_rows(),
    {
        self.num_rows
    }

    /// The pager under the table is well formed.
    pub closed spec fn wf(&self) -> bool {
        self.pager.wf()
    }

    /// The table has not been closed.
    pub closed spec fn spec_is_open(&self) -> bool {
        !self.closed
    }

    /// The table has not been closed.
    #[verifier::when_used_as_spec(spec_is_open)]
    pub fn is_open(&self) -> (open: bool)
        ensures
            open == self.spec_is_open(),
    {
        !self.closed
    }

    /// The contents of the backing file.
    pub fn file_bytes(&self) -> (bytes: &Vec<u8>)
        ensures
            bytes@ == self.file(),
    {
        &self.pager.file
    }

    /// The contents of the backing file.
    pub closed spec fn file(&self) -> Seq<u8> {
        self.pager.file@
    }

    /// Page `page_num` is in the cache.
    pub closed spec fn is_loaded(&self, page_num: int) -> bool {
        self.pager.is_loaded(page_num)
    }

    /// The bytes of page `page_num`: those in the cache when the page is
    /// loaded, else those in the file.
    pub closed spec fn page_bytes(&self, page_num: int) -> Seq<u8> {
        self.pager.page_bytes(page_num)
    }

    /// The row number the cursor stands at.
    pub closed spec fn cursor(&self) -> int {
        self.row_num as int
    }

    /// The cursor stands after the last row.
    pub closed spec fn at_end(&self) -> bool {
        self.end_of_table
    }

    /// Every row is stored whole at its slot and the next row to come will be
    /// too: each page holds at least the bytes of its rows, the page that
    /// receives the next row holds no byte more, the pages after it hold
    /// nothing, and the file does not reach past them.
    pub closed spec fn aligned(&self) -> bool {
        &&& self.num_rows <= max_rows()
        &&& forall|p: int|
            0 <= p < TABLE_MAX_PAGES ==> #[trigger] self.page_bytes(p).len() >= page_fill(
                self.num_rows as int,
                p,
            )
        &&& forall|p: int|
            row_slot_spec(self.num_rows as int).0 <= p < TABLE_MAX_PAGES
                ==> #[trigger] self.page_bytes(p).len() == page_fill(self.num_rows as int, p)
        &&& self.file().len() <= row_file_offset(self.num_rows as int)
    }

    /// The file and the page of the last row end with the last row: nothing
    /// follows it, not even padding.
    pub closed spec fn compact(&self) -> bool {
        &&& self.file().len() <= image_len(self.num_rows as int)
        &&& self.num_rows > 0 ==> self.page_bytes(row_slot_spec(self.num_rows - 1).0).len()
            == page_fill(self.num_rows as int, row_slot_spec(self.num_rows - 1).0)
    }

    /// The number of bytes of page `page_num` as a reader sees them.
    fn page_len(&self, page_num: usize) -> (len: usize)
        requires
            self.wf(),
            page_num < TABLE_MAX_PAGES,
        ensures
            len == self.page_bytes(page_num as int).len(),
    {
        proof {
            lemma_layout();
            lemma_file_page_len(self.pager.file@, page_num as int);
        }
        match &self.pager.pages[page_num] {
            Some(page) => page.len(),
            None => {
                let start: usize = page_num * PAGE_SIZE;
                if self.pager.file_length <= start {
                    0
                } else if self.pager.file_length - start >= PAGE_SIZE {
                    PAGE_SIZE
                } else {
                    self.pager.file_length - start
                }
            },
        }
    }

    /// Tells whether the table is aligned.
    pub fn is_aligned(&self) -> (aligned: bool)
        requires
            self.wf(),
        ensures
            aligned == self.aligned(),
    {
        proof {
            lemma_layout();
        }
        if self.num_rows > TABLE_MAX_PAGES * ROWS_PER_PAGE {
            return false;
        }
        let (last, offset) = self.row_slot(self.num_rows);
        if self.pager.file_length > last * PAGE_SIZE + offset {
            return false;
        }
        let mut p: usize = 0;
        while p < TABLE_MAX_PAGES
            invariant
                p <= TABLE_MAX_PAGES,
                self.wf(),
                self.num_rows <= max_rows(),
                (last as int, offset as int) == row_slot_spec(self.num_rows as int),
                forall|q: int|
                    0 <= q < p ==> #[trigger] self.page_bytes(q).len() >= page_fill(
                        self.num_rows as int,
                        q,
                    ),
                forall|q: int|
                    last <= q < p ==> #[trigger] self.page_bytes(q).len() == page_fill(
                        self.num_rows as int,
                        q,
                    ),
            decreases TABLE_MAX_PAGES - p,
        {
            proof {
                lemma_layout();
            }
            let len = self.page_len(p);
            let fill: usize = if p < last {
                ROWS_PER_PAGE * ROW_SIZE
            } else if p == last {
                offset
            } else {
                0
            };
            assert(fill == page_fill(self.num_rows as int, p as int));
            if len < fill || (p >= last && len != fill) {
                return false;
            }
            p = p + 1;
        }
        true
    }

    /// Opens the table stored in a file with the contents `file`. The number
    /// of rows is the file's length divided by `ROW_SIZE`, rounded down.
    pub fn db_open(file: Vec<u8>) -> (table: Table)
        ensures
            table.wf(),
            table.is_open(),
            table.file() == file@,
            table.num_rows() == file@.len() / (ROW_SIZE as nat),
            table@ == stored_rows(file@),
            forall|p: int| !table.is_loaded(p),
            table.cursor() == table.num_rows(),
            table.at_end(),
            table.aligned() <==> table.num_rows() <= max_rows() && len_fits(
                file@.len() as int,
                table.num_rows() as int,
            ),
            table.aligned() ==> (table.compact() <==> file@.len() == image_len(
                table.num_rows() as int,
            )),
    {
        let pager = Pager::new(file);
        let num_rows: usize = pager.file_length / ROW_SIZE;
        let table = Table { num_rows, pager, row_num: num_rows, end_of_table: true, closed: false };
        proof {
            assert(table@ =~= stored_rows(file@));
            lemma_aligned_at_open(table);
        }
        table
    }

    /// The slot of row `row_num`.
    pub fn row_slot(&self, row_num: usize) -> (slot: (usize, usize))
        ensures
            (slot.0 as int, slot.1 as int) == row_slot_spec(row_num as int),
    {
        proof {
            lemma_layout();
        }
        let page_num: usize = row_num / ROWS_PER_PAGE;
        let row_offset: usize = row_num % ROWS_PER_PAGE;
        let byte_offset: usize = row_offset * ROW_SIZE;
        (page_num, byte_offset)
    }

    /// The slot of the row the cursor stands at.
    pub fn cursor_val(&mut self) -> (slot: (usize, usize))
        ensures
            *final(self) == *old(self),
            (slot.0 as int, slot.1 as int) == row_slot_spec(old(self).cursor()),
    {
        self.row_slot(self.row_num)
    }

    /// Moves the cursor to the first row.
    pub fn cursor_to_start(&mut self)
        ensures
            final(self).cursor() == 0,
            final(self).at_end() == (old(self).num_rows() == 0),
            final(self).same_but_cursor(*old(self)),
    {
        self.row_num = 0;
        self.end_of_table = self.num_rows == 0;
        proof {
            self.lemma_same_pager(*old(self));
        }
    }

    /// Moves the cursor after the last row.
    pub fn cursor_to_end(&mut self)
        ensures
            final(self).cursor() == old(self).num_rows(),
            final(self).at_end(),
            final(self).same_but_cursor(*old(self)),
    {
        self.row_num = self.num_rows;
        self.end_of_table = true;
        proof {
            self.lemma_same_pager(*old(self));
        }
    }

    /// Moves the cursor one row on. Once the cursor has passed the last row
    /// it stays marked as at the end.
    pub fn advance_cursor(&mut self)
        requires
            old(self).cursor() < usize::MAX,
        ensures
            final(self).cursor() == old(self).cursor() + 1,
            final(self).at_end() == (old(self).at_end() || final(self).cursor() >= old(
                self,
            ).num_rows()),
            final(self).same_but_cursor(*old(self)),
    {
        self.row_num = self.row_num + 1;
        if self.row_num >= self.num_rows {
            self.end_of_table = true;
        }
        proof {
            self.lemma_same_pager(*old(self));
        }
    }

    /// Reads the row stored at `byte_offset` of page `page_num`, loading the
    /// page on first use.
    pub fn get_row(&mut self, page_num: usize, byte_offset: usize) -> (result: Result<
        Row,
        PagerError,
    >)
        requires
            old(self).wf(),
            old(self).is_open(),
            page_num < TABLE_MAX_PAGES ==> byte_offset + ROW_SIZE <= old(self).page_bytes(
                page_num as int,
            ).len(),
        ensures
            final(self).wf(),
            final(self).same_contents(*old(self)),
            final(self).cursor() == old(self).cursor(),
            final(self).at_end() == old(self).at_end(),
            page_num >= TABLE_MAX_PAGES ==> result == Err::<Row, PagerError>(
                PagerError::PageOutOfBounds,
            ) && *final(self) == *old(self),
            page_num < TABLE_MAX_PAGES ==> result is Ok && result->Ok_0@ == decode_spec(
                old(self).page_bytes(page_num as int).subrange(
                    byte_offset as int,
                    byte_offset + ROW_SIZE,
                ),
            ) && final(self).is_loaded(page_num as int) && forall|q: int|
                q != page_num ==> final(self).is_loaded(q) == old(self).is_loaded(q),
    {
        let row = match self.pager.get_page(page_num) {
            Ok(page) => decode(page.as_slice(), byte_offset),
            Err(e) => {
                return Err(e);
            },
        };
        proof {
            self.lemma_same_contents(*old(self), page_num as int);
        }
        Ok(row)
    }

    /// A table has as many rows as `num_rows` tells.
    pub proof fn lemma_rows_len(&self)
        ensures
            self@.len() == self.num_rows(),
    {
    }

    /// In an aligned table every row can be read at its slot, and the row
    /// read there is the row of that number.
    pub proof fn lemma_row_readable(&self, row_num: int)
        requires
            self.aligned(),
            0 <= row_num < self.num_rows(),
        ensures
            0 <= row_slot_spec(row_num).0 < TABLE_MAX_PAGES,
            0 <= row_slot_spec(row_num).1,
            row_slot_spec(row_num).1 + ROW_SIZE <= self.page_bytes(row_slot_spec(row_num).0).len(),
            self@[row_num] == decode_spec(
                self.page_bytes(row_slot_spec(row_num).0).subrange(
                    row_slot_spec(row_num).1,
                    row_slot_spec(row_num).1 + ROW_SIZE,
                ),
            ),
    {
        lemma_layout();
        let q = row_slot_spec(row_num).0;
        assert(self.page_bytes(q).len() >= page_fill(self.num_rows as int, q));
    }

    /// Reads every row, from the first to the last, through `row_slot` and
    /// `get_row`.
    pub fn scan(&mut self) -> (rows: Vec<Row>)
        requires
            old(self).wf(),
            old(self).is_open(),
            old(self).aligned(),
        ensures
            final(self).same_contents(*old(self)),
            final(self).cursor() == old(self).cursor(),
            final(self).at_end() == old(self).at_end(),
            rows@.len() == old(self)@.len(),
            forall|i: int| 0 <= i < rows@.len() ==> (#[trigger] rows@[i])@ == old(self)@[i],
            forall|p: int|
                final(self).is_loaded(p) == (old(self).is_loaded(p) || 0 <= p < pages_in_use(
                    old(self).num_rows() as int,
                )),
    {
        proof {
            lemma_layout();
        }
        let mut rows: Vec<Row> = Vec::new();
        let mut i: usize = 0;
        while i < self.num_rows
            invariant
                i <= self.num_rows,
                self.wf(),
                self.is_open(),
                self.aligned(),
                self.same_contents(*old(self)),
                self.cursor() == old(self).cursor(),
                self.at_end() == old(self).at_end(),
                rows@.len() == i,
                forall|k: int| 0 <= k < i ==> (#[trigger] rows@[k])@ == old(self)@[k],
                forall|p: int|
                    self.is_loaded(p) == (old(self).is_loaded(p) || 0 <= p < pages_in_use(i as int)),
            decreases self.num_rows - i,
        {
            let (page_num, byte_offset) = self.row_slot(i);
            proof {
                lemma_layout();
                self.lemma_row_readable(i as int);
            }
            match self.get_row(page_num, byte_offset) {
                Ok(row) => {
                    rows.push(row);
                },
                Err(_) => {},
            }
            i = i + 1;
        }
        rows
    }

    /// Appends `row` after the last row.
    pub fn insert_row(&mut self, row: &Row) -> (result: Result<(), ExecuteError>)
        requires
            old(self).wf(),
            old(self).is_open(),
            old(self).aligned(),
        ensures
            final(self).wf(),
            final(self).is_open(),
            final(self).aligned(),
            final(self).file() == old(self).file(),
            old(self).num_rows() >= max_rows() ==> result == Err::<(), ExecuteError>(
                ExecuteError::TableFull,
            ) && *final(self) == *old(self),
            old(self).num_rows() < max_rows() ==> result is Ok && final(self).num_rows() == old(
                self,
            ).num_rows() + 1 && final(self)@ == old(self)@.push(row@) && final(self).compact()
                && final(self).cursor() == old(self).num_rows() && final(self).at_end()
                && forall|p: int|
                final(self).is_loaded(p) == (old(self).is_loaded(p) || p == row_slot_spec(
                    old(self).num_rows() as int,
                ).0),
    {
        proof {
            lemma_layout();
        }
        if self.num_rows >= TABLE_MAX_PAGES * ROWS_PER_PAGE {
            return Err(ExecuteError::TableFull);
        }
        self.cursor_to_end();
        let (page_num, _) = self.cursor_val();
        let ghost at_end = *self;
        let _ = self.pager.get_page(page_num);
        let ghost loaded = *self;
        proof {
            loaded.lemma_same_contents(at_end, page_num as int);
            assert(old(self).page_bytes(page_num as int).len() == page_fill(
                self.num_rows as int,
                page_num as int,
            ));
        }
        let bytes = encode(row);
        self.pager.append_to_page(page_num, bytes.as_slice());
        self.num_rows = self.num_rows + 1;
        proof {
            assert forall|q: int|
                0 <= q < TABLE_MAX_PAGES && q != page_num implies self.page_bytes(q) == old(
                self,
            ).page_bytes(q) by {
                assert(self.pager.pages@[q] == loaded.pager.pages@[q]);
                assert(loaded.page_bytes(q) == at_end.page_bytes(q));
            }
            self.lemma_after_insert(*old(self), row@);
        }
        Ok(())
    }

    /// The file as closing the table leaves it: every loaded page among the
    /// pages in use written at its place.
    pub closed spec fn closed_file(&self) -> Seq<u8> {
        flushed_file(self.pager.file@, self.pager.pages@, pages_in_use(self.num_rows as int))
    }

    /// Closes the table: every page in use that is loaded is flushed to the
    /// file. Closing a closed table does nothing.
    pub fn db_close(&mut self)
        requires
            old(self).wf(),
        ensures
            final(self).wf(),
            !final(self).is_open(),
            final(self).num_rows() == old(self).num_rows(),
            final(self).cursor() == old(self).cursor(),
            final(self).at_end() == old(self).at_end(),
            !old(self).is_open() ==> *final(self) == *old(self),
            old(self).is_open() ==> final(self).file() == old(self).closed_file(),
            old(self).is_open() && old(self).aligned() ==> file_holds(final(self).file(), old(self)@),
            old(self).is_open() && old(self).aligned() && old(self).compact() ==> final(self).file().len()
                == image_len(old(self).num_rows() as int),
            forall|p: int| final(self).is_loaded(p) == old(self).is_loaded(p),
            forall|p: int|
                old(self).is_open() && 0 <= p < pages_in_use(old(self).num_rows() as int) && old(
                    self,
                ).is_loaded(p) ==> #[trigger] final(self).page_bytes(p).len() == 0,
            forall|p: int|
                pages_in_use(old(self).num_rows() as int) <= p && old(self).is_loaded(p)
                    ==> #[trigger] final(self).page_bytes(p) == old(self).page_bytes(p),
    {
        if self.closed {
            return ;
        }
        proof {
            lemma_layout();
        }
        let mut in_use: usize = self.num_rows / ROWS_PER_PAGE;
        if self.num_rows % ROWS_PER_PAGE > 0 {
            in_use = in_use + 1;
        }
        if in_use > TABLE_MAX_PAGES {
            in_use = TABLE_MAX_PAGES;
        }
        let mut i: usize = 0;
        while i < in_use
            invariant
                i <= in_use <= TABLE_MAX_PAGES,
                in_use == pages_in_use(old(self).num_rows as int),
                old(self).pager.wf(),
                self.pager.wf(),
                self.num_rows == old(self).num_rows,
                self.row_num == old(self).row_num,
                self.end_of_table == old(self).end_of_table,
                self.closed == old(self).closed,
                self.pager.file@ == flushed_file(old(self).pager.file@, old(self).pager.pages@, i as int),
                forall|q: int| i <= q < TABLE_MAX_PAGES ==> self.pager.pages@[q] == old(self).pager.pages@[q],
                forall|q: int|
                    0 <= q < i ==> (#[trigger] self.pager.pages@[q]) is Some == old(self).pager.pages@[q]
                        is Some,
                forall|q: int|
                    0 <= q < i && (#[trigger] self.pager.pages@[q]) is Some
                        ==> self.pager.pages@[q]->0@.len() == 0,
            decreases in_use - i,
        {
            if self.pager.pages[i].is_some() {
                let ghost before = self.pager;
                let _ = self.pager.flush(i, PAGE_SIZE);
                assert forall|q: int| 0 <= q < i implies (#[trigger] self.pager.pages@[q]) is Some
                    == old(self).pager.pages@[q] is Some && (self.pager.pages@[q] is Some
                    ==> self.pager.pages@[q]->0@.len() == 0) by {
                    assert(self.pager.pages@[q] == before.pages@[q]);
                }
            }
            i = i + 1;
        }
        self.closed = true;
        proof {
            if old(self).aligned() {
                old(self).lemma_closed_file_holds();
            }
        }
    }

    /// Closing an aligned table leaves a file that holds its rows.
    pub proof fn lemma_closed_file_holds(&self)
        requires
            self.wf(),
            self.aligned(),
        ensures
            file_holds(self.closed_file(), self@),
            self.compact() ==> self.closed_file().len() == image_len(self.num_rows() as int),
    {
        lemma_layout();
        let n = self.num_rows as int;
        let in_use = pages_in_use(n);
        let f = flushed_file(self.pager.file@, self.pager.pages@, in_use);
        self.lemma_flushed(in_use);
        assert forall|i: int| 0 <= i < self@.len() implies (#[trigger] self@[i]).wf() && f.subrange(
            row_file_offset(i),
            row_file_offset(i) + ROW_SIZE,
        ) == encode_spec(self@[i]) by {
            let q = row_slot_spec(i).0;
            let o = row_slot_spec(i).1;
            assert(self.page_bytes(q).len() >= page_fill(n, q));
            let b = self.page_bytes(q).subrange(o, o + ROW_SIZE);
            assert forall|j: int| 0 <= j < ROW_SIZE implies f[row_file_offset(i) + j] == b[j] by {
                assert(f[q * PAGE_SIZE + (o + j)] == self.page_bytes(q)[o + j]);
            }
            assert(f[q * PAGE_SIZE + (o + ROW_SIZE - 1)] == self.page_bytes(q)[o + ROW_SIZE - 1]);
            assert(q * PAGE_SIZE + (o + ROW_SIZE - 1) < f.len());
            assert(f.subrange(row_file_offset(i), row_file_offset(i) + ROW_SIZE) =~= b);
            lemma_encode_decode(b);
        }
        if n > 0 {
            let q = row_slot_spec(n - 1).0;
            let o = row_slot_spec(n - 1).1;
            assert(self.page_bytes(q).len() >= page_fill(n, q));
            assert(f[q * PAGE_SIZE + (o + ROW_SIZE - 1)] == self.page_bytes(q)[o + ROW_SIZE - 1]);
            assert(q * PAGE_SIZE + (o + ROW_SIZE - 1) < f.len());
        }
    }

    /// What the file holds after the first `upto` pages have been flushed:
    /// the bytes of each of those pages at its place, and the old file from
    /// there on.
    proof fn lemma_flushed(&self, upto: int)
        requires
            self.pager.wf(),
            self.aligned(),
            0 <= upto <= pages_in_use(self.num_rows as int),
        ensures
            ({
                let f = flushed_file(self.pager.file@, self.pager.pages@, upto);
                &&& self.pager.file@.len() <= f.len() <= row_file_offset(self.num_rows as int)
                &&& self.compact() ==> f.len() <= image_len(self.num_rows as int)
                &&& forall|q: int, j: int|
                    0 <= q < upto && 0 <= j < self.page_bytes(q).len() ==> q * PAGE_SIZE + j
                        < f.len() && #[trigger] f[q * PAGE_SIZE + j] == self.page_bytes(q)[j]
                &&& forall|k: int|
                    upto * PAGE_SIZE <= k < self.pager.file@.len() ==> #[trigger] f[k]
                        == self.pager.file@[k]
            }),
        decreases upto,
    {
        lemma_layout();
        if upto > 0 {
            self.lemma_flushed(upto - 1);
            let file = self.pager.file@;
            let n = self.num_rows as int;
            let p = upto - 1;
            let before = flushed_file(file, self.pager.pages@, p);
            let f = flushed_file(file, self.pager.pages@, upto);
            assert(self.page_bytes(p).len() >= page_fill(n, p));
            if self.pager.pages@[p] is Some {
                let buf = self.pager.pages@[p]->0@;
                assert(buf.len() <= PAGE_SIZE);
                if p == row_slot_spec(n).0 {
                    assert(self.page_bytes(p).len() == page_fill(n, p));
                }
                assert(f.len() <= row_file_offset(n));
                assert forall|q: int, j: int|
                    0 <= q < upto && 0 <= j < self.page_bytes(q).len() implies q * PAGE_SIZE + j
                    < f.len() && #[trigger] f[q * PAGE_SIZE + j] == self.page_bytes(q)[j] by {
                    if q < p {
                        assert(self.page_bytes(q).len() <= PAGE_SIZE) by {
                            if self.pager.pages@[q] is Some {
                            } else {
                                lemma_file_page_len(file, q);
                            }
                        }
                        assert(before[q * PAGE_SIZE + j] == self.page_bytes(q)[j]);
                    }
                }
            } else {
                lemma_file_page_len(file, p);
                assert forall|q: int, j: int|
                    0 <= q < upto && 0 <= j < self.page_bytes(q).len() implies q * PAGE_SIZE + j
                    < f.len() && #[trigger] f[q * PAGE_SIZE + j] == self.page_bytes(q)[j] by {
                    if q < p {
                        assert(before[q * PAGE_SIZE + j] == self.page_bytes(q)[j]);
                    } else {
                        assert(file_page(file, p)[j] == file[p * PAGE_SIZE + j]);
                        assert(before[p * PAGE_SIZE + j] == file[p * PAGE_SIZE + j]);
                    }
                }
            }
        }
    }

    /// The two tables are in the same state, have the same file and show the
    /// same bytes in every page, so they hold the same rows. The cursor and
    /// which pages are loaded may differ.
    pub open spec fn same_contents(&self, other: Table) -> bool {
        &&& self.wf() == other.wf()
        &&& self.is_open() == other.is_open()
        &&& self.aligned() == other.aligned()
        &&& self.compact() == other.compact()
        &&& self.num_rows() == other.num_rows()
        &&& self.file() == other.file()
        &&& self@ == other@
        &&& forall|p: int| self.page_bytes(p) == other.page_bytes(p)
    }

    /// The two tables have the same contents and the same pages loaded: only
    /// the cursor may differ.
    pub open spec fn same_but_cursor(&self, other: Table) -> bool {
        &&& self.same_contents(other)
        &&& forall|p: int| self.is_loaded(p) == other.is_loaded(p)
    }

    proof fn lemma_same_pager(&self, before: Table)
        requires
            self.num_rows == before.num_rows,
            self.closed == before.closed,
            self.pager == before.pager,
        ensures
            self.same_but_cursor(before),
    {
        self.lemma_same_bytes(before);
    }

    proof fn lemma_same_bytes(&self, before: Table)
        requires
            self.num_rows == before.num_rows,
            self.pager.file@ == before.pager.file@,
            forall|p: int| self.page_bytes(p) == before.page_bytes(p),
        ensures
            self@ == before@,
            self.aligned() == before.aligned(),
    {
        assert(self@ =~= before@);
        if self.aligned() {
            assert forall|p: int| 0 <= p < TABLE_MAX_PAGES implies #[trigger] before.page_bytes(
                p,
            ).len() >= page_fill(before.num_rows as int, p) by {
                assert(self.page_bytes(p) == before.page_bytes(p));
            }
            assert forall|p: int|
                row_slot_spec(before.num_rows as int).0 <= p < TABLE_MAX_PAGES
                    implies #[trigger] before.page_bytes(p).len() == page_fill(
                before.num_rows as int,
                p,
            ) by {
                assert(self.page_bytes(p) == before.page_bytes(p));
            }
        }
        if before.aligned() {
            assert forall|p: int| 0 <= p < TABLE_MAX_PAGES implies #[trigger] self.page_bytes(
                p,
            ).len() >= page_fill(self.num_rows as int, p) by {
                assert(self.page_bytes(p) == before.page_bytes(p));
            }
            assert forall|p: int|
                row_slot_spec(self.num_rows as int).0 <= p < TABLE_MAX_PAGES
                    implies #[trigger] self.page_bytes(p).len() == page_fill(
                self.num_rows as int,
                p,
            ) by {
                assert(self.page_bytes(p) == before.page_bytes(p));
            }
        }
    }

    proof fn lemma_same_contents(&self, before: Table, page_num: int)
        requires
            before.pager.wf(),
            self.num_rows == before.num_rows,
            self.closed == before.closed,
            self.pager.file == before.pager.file,
            self.pager.file_length == before.pager.file_length,
            0 <= page_num < TABLE_MAX_PAGES,
            self.pager.pages@[page_num] is Some,
            self.pager.pages@[page_num]->0@ == before.pager.page_bytes(page_num),
            self.pager.pages@ == before.pager.pages@.update(page_num, self.pager.pages@[page_num]),
        ensures
            self.same_contents(before),
    {
        assert forall|p: int| self.page_bytes(p) == before.page_bytes(p) by {
            if p != page_num && 0 <= p < TABLE_MAX_PAGES {
                assert(self.pager.pages@[p] == before.pager.pages@[p]);
            }
        }
        self.lemma_same_bytes(before);
        assert(self.pager.wf()) by {
            assert forall|p: int|
                0 <= p < self.pager.pages@.len() && (#[trigger] self.pager.pages@[p])
                    is Some implies self.pager.pages@[p]->0@.len() <= PAGE_SIZE by {
                if p != page_num {
                    assert(self.pager.pages@[p] == before.pager.pages@[p]);
                } else {
                    lemma_file_page_len(before.pager.file@, p);
                }
            }
        }
    }

    proof fn lemma_after_insert(&self, before: Table, row: RowView)
        requires
            row.wf(),
            before.aligned(),
            before.num_rows < max_rows(),
            self.num_rows == before.num_rows + 1,
            self.pager.file@ == before.pager.file@,
            ({
                let page_num = row_slot_spec(before.num_rows as int).0;
                &&& self.page_bytes(page_num) == before.page_bytes(page_num) + encode_spec(row)
                &&& forall|q: int|
                    0 <= q < TABLE_MAX_PAGES && q != page_num ==> self.page_bytes(q)
                        == before.page_bytes(q)
            }),
        ensures
            self.aligned(),
            self.compact(),
            self@ == before@.push(row),
    {
        lemma_layout();
        lemma_decode_encode(row);
        let n = before.num_rows as int;
        let page_num = row_slot_spec(n).0;
        let offset = row_slot_spec(n).1;
        let enc = encode_spec(row);
        assert(before.page_bytes(page_num).len() == page_fill(n, page_num));
        assert(self.page_bytes(page_num) == before.page_bytes(page_num) + enc);
        assert forall|p: int| 0 <= p < TABLE_MAX_PAGES implies #[trigger] self.page_bytes(p).len()
            >= page_fill(self.num_rows as int, p) by {
            if p != page_num {
                assert(before.page_bytes(p).len() >= page_fill(n, p));
            }
        }
        assert forall|p: int|
            row_slot_spec(self.num_rows as int).0 <= p < TABLE_MAX_PAGES
                implies #[trigger] self.page_bytes(p).len() == page_fill(
            self.num_rows as int,
            p,
        ) by {
            if p != page_num {
                assert(before.page_bytes(p).len() == page_fill(n, p));
            }
        }
        assert forall|i: int| 0 <= i < self.num_rows implies self@[i] == before@.push(row)[i] by {
            let p = row_slot_spec(i).0;
            let o = row_slot_spec(i).1;
            if i == n {
                assert(self.page_bytes(p).subrange(o, o + ROW_SIZE) =~= enc);
            } else if p == page_num {
                assert(self.page_bytes(p).subrange(o, o + ROW_SIZE) =~= before.page_bytes(
                    p,
                ).subrange(o, o + ROW_SIZE));
            } else {
                assert(self.page_bytes(p) == before.page_bytes(p));
            }
        }
        assert(self@ =~= before@.push(row));
    }
}

proof fn lemma_aligned_at_open(table: Table)
    requires
        table.pager.wf(),
        forall|p: int| !table.pager.is_loaded(p),
    ensures
        table.aligned() <==> table.num_rows <= max_rows() && len_fits(
            table.pager.file@.len() as int,
            table.num_rows as int,
        ),
        table.aligned() ==> (table.compact() <==> table.pager.file@.len() == image_len(
            table.num_rows as int,
        )),
{
    let file = table.pager.file@;
    let len = file.len() as int;
    let n = table.num_rows as int;
    let last = n / (ROWS_PER_PAGE as int);
    let rest = n % (ROWS_PER_PAGE as int);
    lemma_layout();
    assert forall|p: int| 0 <= p implies #[trigger] table.page_bytes(p).len() == if len <= p
        * PAGE_SIZE {
        0
    } else if len >= (p + 1) * PAGE_SIZE {
        PAGE_SIZE as int
    } else {
        len - p * PAGE_SIZE
    } by {
        lemma_file_page_len(file, p);
    }
    if n <= max_rows() && len_fits(len, n) {
        assert(table.aligned());
    }
    if table.aligned() {
        if rest > 0 {
            assert(table.page_bytes(last).len() == page_fill(n, last));
        } else if last >= 1 {
            assert(table.page_bytes(last - 1).len() >= page_fill(n, last - 1));
        }
        assert(len_fits(len, n));
        if n > 0 {
            let q = row_slot_spec(n - 1).0;
            assert(table.page_bytes(q).len() >= page_fill(n, q));
        }
    }
}

} // verus!
