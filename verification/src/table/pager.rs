//! The pager: a cache of pages over the bytes of one backing file.
//!
//! The pager holds the contents of the backing file as plain bytes. Whoever
//! owns the real file reads it before the pager is made and writes the bytes
//! back after the last flush. A page is loaded into the cache the first time
//! it is asked for and stays there; it reaches the file only when it is
//! flushed.

use crate::consts::{lemma_layout, PAGE_SIZE, ROWS_PER_PAGE, ROW_SIZE, TABLE_MAX_PAGES};
use vstd::prelude::*;

verus! {

/// The number of pages, the last one possibly partial, that a file of `len`
/// bytes spans.
pub open spec fn file_pages(len: int) -> int {
    len / (PAGE_SIZE as int) + if len % (PAGE_SIZE as int) != 0 {
        1int
    } else {
        0int
    }
}

/// The bytes of page `page_num` in `file`: a full page, or what is left of
/// the file from where the page starts, whichever is shorter; nothing for a
/// page that starts at or after the end of the file.
pub open spec fn file_page(file: Seq<u8>, page_num: int) -> Seq<u8> {
    if 0 <= page_num < file_pages(file.len() as int) {
        let start = page_num * PAGE_SIZE;
        let end = if file.len() - start < PAGE_SIZE {
            file.len() as int
        } else {
            start + PAGE_SIZE
        };
        file.subrange(start, end)
    } else {
        Seq::empty()
    }
}

/// The file after `data` has been written at `offset`. A write of no bytes
/// changes nothing. A write that starts after the end of the file leaves
/// zero bytes between the old end and `offset`.
pub open spec fn write_at_spec(file: Seq<u8>, offset: int, data: Seq<u8>) -> Seq<u8> {
    if data.len() == 0 {
        file
    } else {
        let end = offset + data.len();
        let len = if end > file.len() {
            end
        } else {
            file.len() as int
        };
        Seq::new(
            len as nat,
            |i: int|
                if offset <= i < end {
                    data[i - offset]
                } else if i < file.len() {
                    file[i]
                } else {
                    0u8
                },
        )
    }
}

/// Copies `len` bytes of `file`, starting at `offset`.
pub fn read_at(file: &Vec<u8>, offset: usize, len: usize) -> (data: Vec<u8>)
    requires
        offset + len <= file@.len(),
    ensures
        data@ == file@.subrange(offset as int, offset + len),
{
    let file_len: usize = file.len();
    let mut data: Vec<u8> = Vec::new();
    let mut i: usize = 0;
    while i < len
        invariant
            i <= len,
            offset + len <= file_len == file@.len(),
            data@ == file@.subrange(offset as int, offset + i),
        decreases len - i,
    {
        data.push(file[offset + i]);
        assert(data@ =~= file@.subrange(offset as int, offset + i + 1));
        i = i + 1;
    }
    data
}

/// Writes `data` into `file` at `offset`, growing the file where needed.
pub fn write_at(file: &mut Vec<u8>, offset: usize, data: &[u8])
    requires
        offset + data@.len() <= usize::MAX,
    ensures
        final(file)@ == write_at_spec(old(file)@, offset as int, data@),
{
    let n = data.len();
    if n == 0 {
        return ;
    }
    let ghost before = file@;
    while file.len() < offset
        invariant
            before.len() <= file@.len(),
            file@.len() <= offset || file@.len() == before.len(),
            forall|i: int| 0 <= i < before.len() ==> file@[i] == before[i],
            forall|i: int| before.len() <= i < file@.len() ==> file@[i] == 0u8,
        decreases offset - file@.len(),
    {
        file.push(0u8);
    }
    let mut i: usize = 0;
    while i < n
        invariant
            i <= n,
            n == data@.len(),
            offset + n <= usize::MAX,
            offset <= file@.len(),
            file@.len() == if offset + i > before.len() {
                offset + i
            } else {
                before.len() as int
            },
            forall|k: int| 0 <= k < offset && k < before.len() ==> file@[k] == before[k],
            forall|k: int| before.len() <= k < offset ==> file@[k] == 0u8,
            forall|k: int| offset <= k < offset + i ==> file@[k] == data@[k - offset],
            forall|k: int| offset + i <= k < before.len() ==> file@[k] == before[k],
        decreases n - i,
    {
        if offset + i < file.len() {
            file[offset + i] = data[i];
        } else {
            file.push(data[i]);
        }
        i = i + 1;
    }
    assert(file@ =~= write_at_spec(before, offset as int, data@));
}

/// Why the pager refused a request.
#[derive(Debug, Clone, Copy, PartialEq, Eq)]
pub enum PagerError {
    /// The page number is not below `TABLE_MAX_PAGES`.
    PageOutOfBounds,
    /// The page to flush was never loaded.
    FlushOfUnloadedPage,
}

/// The page cache and the bytes of the backing file.
#[derive(Debug)]
pub struct Pager {
    /// The contents of the backing file.
    pub file: Vec<u8>,
    /// The length of the backing file in bytes.
    pub file_length: usize,
    /// One slot per page number: `None` until the page is loaded.
    pub pages: Vec<Option<Vec<u8>>>,
}

impl Pager {
    /// There is one slot per page, no cached page is longer than a page, and
    /// the recorded length is the length of the file.
    pub open spec fn wf(&self) -> bool {
        &&& self.pages@.len() == TABLE_MAX_PAGES
        &&& self.file_length == self.file@.len()
        &&& forall|p: int|
            0 <= p < self.pages@.len() && (#[trigger] self.pages@[p]) is Some ==> self.pages@[p]->0@.len()
                <= PAGE_SIZE
    }

    /// Page `page_num` has a slot and is in the cache.
    pub open spec fn is_loaded(&self, page_num: int) -> bool {
        0 <= page_num < self.pages@.len() && self.pages@[page_num] is Some
    }

    /// The bytes of page `page_num` as a reader of the pager sees them: the
    /// cached buffer when the page is loaded, else the bytes in the file.
    pub open spec fn page_bytes(&self, page_num: int) -> Seq<u8> {
        if self.is_loaded(page_num) {
            self.pages@[page_num]->0@
        } else {
            file_page(self.file@, page_num)
        }
    }

    /// A pager over a file with the contents `file`, with no page loaded.
    pub fn new(file: Vec<u8>) -> (pager: Pager)
        ensures
            pager.wf(),
            pager.file == file,
            forall|p: int| !pager.is_loaded(p),
    {
        let mut pages: Vec<Option<Vec<u8>>> = Vec::with_capacity(TABLE_MAX_PAGES);
        let mut i: usize = 0;
        while i < TABLE_MAX_PAGES
            invariant
                i <= TABLE_MAX_PAGES,
                pages@.len() == i,
                forall|p: int| 0 <= p < i ==> pages@[p] is None,
            decreases TABLE_MAX_PAGES - i,
        {
            pages.push(None);
            i = i + 1;
        }
        Pager { file_length: file.len(), file, pages }
    }

    /// Hands out page `page_num`, loading it from the file on first use. A
    /// page that starts at or after the end of the file is loaded empty.
    pub fn get_page(&mut self, page_num: usize) -> (result: Result<&Vec<u8>, PagerError>)
        requires
            old(self).wf(),
        ensures
            final(self).wf(),
            final(self).file == old(self).file,
            final(self).file_length == old(self).file_length,
            page_num >= TABLE_MAX_PAGES ==> result == Err::<&Vec<u8>, PagerError>(
                PagerError::PageOutOfBounds,
            ) && final(self).pages == old(self).pages,
            page_num < TABLE_MAX_PAGES ==> result is Ok && result->Ok_0@ == old(self).page_bytes(
                page_num as int,
            ) && final(self).pages@ == old(self).pages@.update(
                page_num as int,
                Some(*result->Ok_0),
            ),
    {
        if page_num >= TABLE_MAX_PAGES {
            return Err(PagerError::PageOutOfBounds);
        }
        if self.pages[page_num].is_none() {
            let mut num_pages: usize = self.file_length / PAGE_SIZE;
            if self.file_length % PAGE_SIZE != 0 {
                num_pages = num_pages + 1;
            }
            let page: Vec<u8> = if page_num < num_pages {
                let start: usize = page_num * PAGE_SIZE;
                let left: usize = self.file_length - start;
                let size: usize = if left < PAGE_SIZE {
                    left
                } else {
                    PAGE_SIZE
                };
                read_at(&self.file, start, size)
            } else {
                Vec::new()
            };
            self.pages[page_num] = Some(page);
        }
        assert(self.pages@ =~= old(self).pages@.update(page_num as int, self.pages@[page_num as int]));
        Ok(self.pages[page_num].as_ref().unwrap())
    }

    /// Writes the cached buffer of page `page_num` to the file at
    /// `page_num * page_size`, then empties the buffer in place: the page
    /// stays loaded, with no bytes.
    pub fn flush(&mut self, page_num: usize, page_size: usize) -> (result: Result<(), PagerError>)
        requires
            old(self).wf(),
            page_num < TABLE_MAX_PAGES ==> page_num * page_size + PAGE_SIZE <= usize::MAX,
        ensures
            final(self).wf(),
            !old(self).is_loaded(page_num as int) ==> result == Err::<(), PagerError>(
                PagerError::FlushOfUnloadedPage,
            ) && final(self).file == old(self).file && final(self).pages == old(self).pages,
            old(self).is_loaded(page_num as int) ==> result is Ok && final(self).file@
                == write_at_spec(
                old(self).file@,
                page_num * page_size,
                old(self).pages@[page_num as int]->0@,
            ) && final(self).pages@.len() == old(self).pages@.len() && final(self).pages@[page_num as int]
                is Some && final(self).pages@[page_num as int]->0@.len() == 0 && forall|q: int|
                0 <= q < old(self).pages@.len() && q != page_num ==> final(self).pages@[q] == old(
                    self,
                ).pages@[q],
    {
        if page_num >= self.pages.len() {
            return Err(PagerError::FlushOfUnloadedPage);
        }
        match &self.pages[page_num] {
            None => {
                return Err(PagerError::FlushOfUnloadedPage);
            },
            Some(page) => {
                write_at(&mut self.file, page_num * page_size, page.as_slice());
            },
        }
        self.file_length = self.file.len();
        match &mut self.pages[page_num] {
            None => {},
            Some(page) => {
                page.clear();
            },
        }
        Ok(())
    }

    /// Appends `data` to the cached buffer of the loaded page `page_num`.
    /// The caller keeps the page within its capacity of `ROWS_PER_PAGE` rows.
    pub fn append_to_page(&mut self, page_num: usize, data: &[u8])
        requires
            old(self).wf(),
            old(self).is_loaded(page_num as int),
            old(self).pages@[page_num as int]->0@.len() + data@.len() <= ROWS_PER_PAGE * ROW_SIZE,
        ensures
            final(self).wf(),
            final(self).file == old(self).file,
            final(self).file_length == old(self).file_length,
            final(self).pages@.len() == old(self).pages@.len(),
            final(self).pages@[page_num as int] is Some,
            final(self).pages@[page_num as int]->0@ == old(self).pages@[page_num as int]->0@ + data@,
            forall|q: int|
                0 <= q < old(self).pages@.len() && q != page_num ==> final(self).pages@[q] == old(
                    self,
                ).pages@[q],
    {
        match &mut self.pages[page_num] {
            None => {},
            Some(page) => {
                page.extend_from_slice(data);
            },
        }
        assert forall|p: int|
            0 <= p < self.pages@.len() && (#[trigger] self.pages@[p]) is Some implies self.pages@[p]->0@.len()
            <= PAGE_SIZE by {
            if p != page_num {
                assert(self.pages@[p] == old(self).pages@[p]);
            } else {
                lemma_layout();
            }
        }
    }
}

} // verus!
