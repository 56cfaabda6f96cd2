//! A page that stores a list of page identifiers.
//!
//! Layout: checksum (8) | count (4) | identifiers of 4 bytes each.
use vstd::prelude::*;
use crate::config::{PAGE_SIZE, PageId};
use crate::reinterpret::{read_i32, read_u32, u32_at, write_i32, write_u32};

verus! {

/// Most identifiers that fit in the page.
pub const MAX_IDS: usize = 1021;

/// The identifiers stored in a page image.
pub open spec fn ids_of(s: Seq<u8>) -> Seq<PageId> {
    Seq::new(u32_at(s, 8) as nat, |k: int| u32_at(s, 12 + 4 * k) as i32)
}

/// A page holding a list of page identifiers.
pub struct ReservedPage {
    data: Vec<u8>,
    page_id: PageId,
}

impl ReservedPage {
    pub closed spec fn wf(&self) -> bool {
        self.data@.len() == PAGE_SIZE
    }

    /// The page's bytes.
    pub closed spec fn bytes(&self) -> Seq<u8> {
        self.data@
    }

    /// The page identifier.
    pub closed spec fn id(&self) -> PageId {
        self.page_id
    }

    /// A page of zeros with identifier zero.
    pub fn new() -> (r: ReservedPage)
        ensures
            r.wf(),
            r.bytes() == Seq::new(PAGE_SIZE as nat, |i: int| 0u8),
            r.id() == 0,
    {
        let data = vec![0u8; PAGE_SIZE];
        assert(data@ =~= Seq::new(PAGE_SIZE as nat, |i: int| 0u8));
        ReservedPage { data, page_id: 0 }
    }

    pub fn page_id(&self) -> (r: PageId)
        ensures
            r == self.id(),
    {
        self.page_id
    }

    pub fn data(&self) -> (r: &[u8])
        ensures
            r@ == self.bytes(),
    {
        self.data.as_slice()
    }

    pub fn data_mut(&mut self) -> (r: &mut [u8])
        requires
            old(self).wf(),
        ensures
            r@ == old(self).bytes(),
            final(self).bytes() == final(r)@,
            final(self).id() == old(self).id(),
    {
        self.data.as_mut_slice()
    }

    /// Number of stored identifiers.
    pub fn record_count(&self) -> (r: usize)
        requires
            self.wf(),
        ensures
            r == u32_at(self.bytes(), 8),
    {
        read_u32(self.data.as_slice(), 8) as usize
    }

    /// Stores `free_ids`, replacing the list.
    pub fn write_records(&mut self, free_ids: &Vec<PageId>)
        requires
            old(self).wf(),
            free_ids@.len() <= MAX_IDS,
        ensures
            final(self).wf(),
            ids_of(final(self).bytes()) == free_ids@,
            final(self).id() == old(self).id(),
    {
        write_u32(self.data.as_mut_slice(), 8, free_ids.len() as u32);
        let mut k: usize = 0;
        while k < free_ids.len()
            invariant
                self.data@.len() == PAGE_SIZE,
                k <= free_ids@.len() <= MAX_IDS,
                u32_at(self.data@, 8) == free_ids@.len(),
                forall|j: int| 0 <= j < k ==> #[trigger] u32_at(self.data@, 12 + 4 * j) as i32
                    == free_ids@[j],
                self.page_id == old(self).page_id,
            decreases free_ids@.len() - k,
        {
            let ghost before = self.data@;
            write_i32(self.data.as_mut_slice(), 12 + 4 * k, free_ids[k]);
            proof {
                assert forall|j: int| 0 <= j < k + 1 implies #[trigger] u32_at(self.data@, 12 + 4 * j)
                    as i32 == free_ids@[j] by {
                    if j == k {
                        assert(u32_at(self.data@, (12 + 4 * k) as int) as i32 == free_ids@[k as int]);
                    }
                    if j < k {
                        let o = 12 + 4 * j;
                        assert(u32_at(before, o) as i32 == free_ids@[j]);
                        assert(self.data@[o] == before[o] && self.data@[o + 1] == before[o + 1]
                            && self.data@[o + 2] == before[o + 2] && self.data@[o + 3] == before[o + 3]);
                    }
                }
                assert(self.data@[8] == before[8] && self.data@[9] == before[9] && self.data@[10]
                    == before[10] && self.data@[11] == before[11]);
            }
            k = k + 1;
        }
        assert(ids_of(self.data@) =~= free_ids@);
    }

    /// The stored identifiers.
    pub fn read_records(&self) -> (r: Vec<PageId>)
        requires
            self.wf(),
            u32_at(self.bytes(), 8) <= MAX_IDS,
        ensures
            r@ == ids_of(self.bytes()),
    {
        let size = read_u32(self.data.as_slice(), 8) as usize;
        let mut out: Vec<PageId> = Vec::new();
        let mut k: usize = 0;
        while k < size
            invariant
                self.data@.len() == PAGE_SIZE,
                size == u32_at(self.data@, 8),
                size <= MAX_IDS,
                k <= size,
                out@ == ids_of(self.data@).subrange(0, k as int),
            decreases size - k,
        {
            out.push(read_i32(self.data.as_slice(), 12 + 4 * k));
            k = k + 1;
            assert(out@ =~= ids_of(self.data@).subrange(0, k as int));
        }
        assert(out@ =~= ids_of(self.data@));
        out
    }
}

} // verus!
