//! Disk manager: a paged view over a heap file.
//!
//! The heap file is a flat sequence of `PAGE_SIZE`-byte pages; page `n`
//! occupies the byte range `[PAGE_SIZE * n, PAGE_SIZE * (n + 1))`. The
//! manager owns the page-id allocator: ids are dense, assigned monotonically
//! from `file length / PAGE_SIZE`, and never recycled. The file reads and
//! writes themselves are the driver's business; this module decides what is
//! a legal file length, which id comes next, and at which byte offset a page
//! lives.

use vstd::prelude::*;

use crate::buffer::Error;

verus! {

/// Size of one page in bytes.
pub const PAGE_SIZE: u64 = 4096;

/// Identifier of one on-disk page. Two ids are equal iff they denote the
/// same page. Id 0 is a valid page id.
#[derive(Clone, Copy, Debug, PartialEq, Eq, Hash, Structural)]
pub struct PageId(pub u64);

/// Allocator state of the heap file: the next page id to hand out.
#[derive(Debug)]
pub struct DiskManager {
    next_page_id: u64,
}

impl View for DiskManager {
    type V = u64;

    /// The model of a disk manager is its next-id counter.
    closed spec fn view(&self) -> u64 {
        self.next_page_id
    }
}

impl DiskManager {
    /// Builds the manager from the current length of the heap file in
    /// bytes. A length that is not a multiple of `PAGE_SIZE` is a format
    /// error; otherwise the next-id counter starts at the number of pages
    /// already in the file.
    pub fn new(heap_file_len: u64) -> (r: Result<DiskManager, Error>)
        ensures
            heap_file_len % PAGE_SIZE == 0 ==> (r matches Ok(d) && d@ == heap_file_len / PAGE_SIZE),
            heap_file_len % PAGE_SIZE != 0 ==> (r matches Err(e) && e == Error::Io),
    {
        if heap_file_len % PAGE_SIZE != 0 {
            Err(Error::Io)
        } else {
            Ok(DiskManager { next_page_id: heap_file_len / PAGE_SIZE })
        }
    }

    /// Returns the current counter value and post-increments it. The page
    /// becomes physically present only when its bytes are first written.
    pub fn allocate_page(&mut self) -> (r: PageId)
        requires
            old(self)@ < u64::MAX,
        ensures
            r.0 == old(self)@,
            final(self)@ == old(self)@ + 1,
    {
        let page_id = self.next_page_id;
        self.next_page_id = self.next_page_id + 1;
        PageId(page_id)
    }

    /// The byte offset at which a page's data lives in the heap file.
    pub fn page_offset(page_id: PageId) -> (r: u64)
        requires
            page_id.0 * PAGE_SIZE <= u64::MAX,
        ensures
            r == page_id.0 * PAGE_SIZE,
    {
        page_id.0 * PAGE_SIZE
    }

    /// The next page id that `allocate_page` would return.
    pub fn next_page_id(&self) -> (r: u64)
        ensures
            r == self@,
    {
        self.next_page_id
    }
}

} // verus!
