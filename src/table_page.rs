//! The header of a slotted table page.
//!
//! Layout: checksum (8) | page id (4) | LSN (4) | previous page id (4) | next page id (4) |
//! free-space pointer (8) | tuple count (8) | ...
use vstd::prelude::*;
use crate::config::{INVALID_PAGE_ID, PAGE_SIZE, PageId};
use crate::reinterpret::{read_i32, u32_at, u64_at, write_i32, write_u64, same_outside};

verus! {

pub const PAGE_ID_OFFSET: usize = 8;
pub const PREV_PAGE_ID_OFFSET: usize = 16;
pub const NEXT_PAGE_ID_OFFSET: usize = 20;
pub const FREE_SPACE_PTR_OFFSET: usize = 24;
pub const TUPLE_COUNT_OFFSET: usize = 32;
pub const DATA_OFFSET: usize = 40;

/// The `i32` stored at `off`.
pub open spec fn i32_at(s: Seq<u8>, off: int) -> i32 {
    u32_at(s, off) as i32
}

/// A table page.
pub struct TablePage {
    data: Vec<u8>,
}

impl TablePage {
    pub closed spec fn wf(&self) -> bool {
        self.data@.len() == PAGE_SIZE
    }

    /// The page's bytes.
    pub closed spec fn bytes(&self) -> Seq<u8> {
        self.data@
    }

    /// A page of zeros whose page identifier is `INVALID_PAGE_ID`.
    pub fn new() -> (r: TablePage)
        ensures
            r.wf(),
            i32_at(r.bytes(), PAGE_ID_OFFSET as int) == INVALID_PAGE_ID,
            forall|i: int| 0 <= i < PAGE_SIZE && !(PAGE_ID_OFFSET <= i < PAGE_ID_OFFSET + 4)
                ==> r.bytes()[i] == 0,
    {
        let mut page = TablePage { data: vec![0u8; PAGE_SIZE] };
        page.set_page_id(INVALID_PAGE_ID);
        page
    }

    pub fn page_id(&self) -> (r: PageId)
        requires
            self.wf(),
        ensures
            r == i32_at(self.bytes(), PAGE_ID_OFFSET as int),
    {
        read_i32(self.data.as_slice(), PAGE_ID_OFFSET)
    }

    pub fn set_page_id(&mut self, page_id: PageId)
        requires
            old(self).wf(),
        ensures
            final(self).wf(),
            same_outside(old(self).bytes(), final(self).bytes(), PAGE_ID_OFFSET as int, PAGE_ID_OFFSET + 4),
            i32_at(final(self).bytes(), PAGE_ID_OFFSET as int) == page_id,
    {
        write_i32(self.data.as_mut_slice(), PAGE_ID_OFFSET, page_id);
    }

    pub fn prev_page_id(&self) -> (r: PageId)
        requires
            self.wf(),
        ensures
            r == i32_at(self.bytes(), PREV_PAGE_ID_OFFSET as int),
    {
        read_i32(self.data.as_slice(), PREV_PAGE_ID_OFFSET)
    }

    pub fn next_page_id(&self) -> (r: PageId)
        requires
            self.wf(),
        ensures
            r == i32_at(self.bytes(), NEXT_PAGE_ID_OFFSET as int),
    {
        read_i32(self.data.as_slice(), NEXT_PAGE_ID_OFFSET)
    }

    pub fn set_prev_page_id(&mut self, page_id: PageId)
        requires
            old(self).wf(),
        ensures
            final(self).wf(),
            same_outside(old(self).bytes(), final(self).bytes(), PREV_PAGE_ID_OFFSET as int, PREV_PAGE_ID_OFFSET + 4),
            i32_at(final(self).bytes(), PREV_PAGE_ID_OFFSET as int) == page_id,
    {
        write_i32(self.data.as_mut_slice(), PREV_PAGE_ID_OFFSET, page_id);
    }

    pub fn set_next_page_id(&mut self, page_id: PageId)
        requires
            old(self).wf(),
        ensures
            final(self).wf(),
            same_outside(old(self).bytes(), final(self).bytes(), NEXT_PAGE_ID_OFFSET as int, NEXT_PAGE_ID_OFFSET + 4),
            i32_at(final(self).bytes(), NEXT_PAGE_ID_OFFSET as int) == page_id,
    {
        write_i32(self.data.as_mut_slice(), NEXT_PAGE_ID_OFFSET, page_id);
    }

    fn set_free_space_ptr(&mut self, ptr: usize)
        requires
            old(self).wf(),
        ensures
            final(self).wf(),
            same_outside(old(self).bytes(), final(self).bytes(), FREE_SPACE_PTR_OFFSET as int, FREE_SPACE_PTR_OFFSET + 8),
            u64_at(final(self).bytes(), FREE_SPACE_PTR_OFFSET as int) == ptr as u64,
    {
        write_u64(self.data.as_mut_slice(), FREE_SPACE_PTR_OFFSET, ptr as u64);
    }

    fn set_tuple_count(&mut self, count: usize)
        requires
            old(self).wf(),
        ensures
            final(self).wf(),
            same_outside(old(self).bytes(), final(self).bytes(), TUPLE_COUNT_OFFSET as int, TUPLE_COUNT_OFFSET + 8),
            u64_at(final(self).bytes(), TUPLE_COUNT_OFFSET as int) == count as u64,
    {
        write_u64(self.data.as_mut_slice(), TUPLE_COUNT_OFFSET, count as u64);
    }

    /// Makes the page empty: no neighbours, no tuples, free space from the end of the
    /// page, and zeros after the header. The checksum and the page identifier stay.
    pub fn reset(&mut self)
        requires
            old(self).wf(),
        ensures
            final(self).wf(),
            forall|i: int| 0 <= i < PREV_PAGE_ID_OFFSET ==> final(self).bytes()[i] == old(self).bytes()[i],
            i32_at(final(self).bytes(), PREV_PAGE_ID_OFFSET as int) == INVALID_PAGE_ID,
            i32_at(final(self).bytes(), NEXT_PAGE_ID_OFFSET as int) == INVALID_PAGE_ID,
            u64_at(final(self).bytes(), FREE_SPACE_PTR_OFFSET as int) == PAGE_SIZE as u64,
            u64_at(final(self).bytes(), TUPLE_COUNT_OFFSET as int) == 0,
            forall|i: int| DATA_OFFSET <= i < PAGE_SIZE ==> final(self).bytes()[i] == 0,
    {
        self.set_prev_page_id(INVALID_PAGE_ID);
        let ghost d1 = self.data@;
        self.set_next_page_id(INVALID_PAGE_ID);
        let ghost d2 = self.data@;
        self.set_free_space_ptr(PAGE_SIZE);
        let ghost d3 = self.data@;
        self.set_tuple_count(0);
        let ghost d4 = self.data@;
        let mut i: usize = DATA_OFFSET;
        while i < PAGE_SIZE
            invariant
                self.data@.len() == PAGE_SIZE,
                DATA_OFFSET <= i <= PAGE_SIZE,
                forall|j: int| 0 <= j < DATA_OFFSET ==> self.data@[j] == d4[j],
                forall|j: int| DATA_OFFSET <= j < i ==> self.data@[j] == 0,
            decreases PAGE_SIZE - i,
        {
            self.data.set(i, 0);
            i = i + 1;
        }
        proof {
            let d = self.data@;
            let a = PREV_PAGE_ID_OFFSET as int;
            assert(d[a] == d1[a] && d[a + 1] == d1[a + 1] && d[a + 2] == d1[a + 2] && d[a + 3] == d1[a + 3]);
            let b = NEXT_PAGE_ID_OFFSET as int;
            assert(d[b] == d2[b] && d[b + 1] == d2[b + 1] && d[b + 2] == d2[b + 2] && d[b + 3] == d2[b + 3]);
            let c = FREE_SPACE_PTR_OFFSET as int;
            assert(d[c] == d3[c] && d[c + 1] == d3[c + 1] && d[c + 2] == d3[c + 2] && d[c + 3] == d3[c + 3]
                && d[c + 4] == d3[c + 4] && d[c + 5] == d3[c + 5] && d[c + 6] == d3[c + 6] && d[c + 7] == d3[c + 7]);
            let t = TUPLE_COUNT_OFFSET as int;
            assert(d[t] == d4[t] && d[t + 1] == d4[t + 1] && d[t + 2] == d4[t + 2] && d[t + 3] == d4[t + 3]
                && d[t + 4] == d4[t + 4] && d[t + 5] == d4[t + 5] && d[t + 6] == d4[t + 6] && d[t + 7] == d4[t + 7]);
        }
    }
}

} // verus!
