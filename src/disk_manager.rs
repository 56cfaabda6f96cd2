//! The decisions of the disk manager: page-identifier allocation, where a page lies in
//! the database file, and the checksums that guard each stored page. The file itself is
//! read and written by the caller.
use vstd::prelude::*;
use crate::bitmap::{Bitmap, bit_at, strip_zeros};
use crate::checksum::{CHECKSUM_SIZE, checksum_ok, page_hash, payload_of, stored_checksum,
    update_checksum, validate_checksum};
use crate::config::{PAGE_SIZE, PageId};
use crate::error::{DbError, DbErrorKind, invalid_data, invalid_input, not_found};
use crate::reinterpret::same_outside;
use crate::selector::{MAX_WORDS, Selector};

verus! {

/// Number of page identifiers the allocator can issue.
pub const MAX_PAGES: usize = 0x8000_0000;

/// Byte offset of page `page_id` in the database file.
pub open spec fn offset_of(page_id: int) -> int {
    page_id * PAGE_SIZE
}

/// Byte offset of page `page_id` in the database file.
pub fn page_offset(page_id: PageId) -> (r: u64)
    requires
        page_id >= 0,
    ensures
        r == offset_of(page_id as int),
{
    let p = page_id as u64;
    assert(p * 4096 <= 0x8000_0000u64 * 4096) by (nonlinear_arith)
        requires
            p <= 0x8000_0000u64,
    ;
    p * (PAGE_SIZE as u64)
}

/// The length the database file must have before page `offset` is read: one more page
/// when the page starts exactly at the end of the file, else no change.
pub fn extend_for_read(offset: u64, file_len: u64) -> (r: Option<u64>)
    requires
        offset + PAGE_SIZE <= u64::MAX,
    ensures
        r == if offset == file_len {
            Some((offset + PAGE_SIZE) as u64)
        } else {
            None::<u64>
        },
{
    if offset == file_len {
        Some(offset + PAGE_SIZE as u64)
    } else {
        None
    }
}

/// The disk manager's own state: the page-identifier allocator.
pub struct DiskManager {
    selector: Selector,
}

impl DiskManager {
    pub closed spec fn wf(&self) -> bool {
        self.selector.wf()
    }

    /// Whether `page_id` is currently allocated.
    pub closed spec fn allocated(&self, page_id: int) -> bool {
        self.selector.used(page_id)
    }

    /// Takes the allocation bitmap from the bytes of its file (empty for a new database).
    pub fn new(bitmap_image: Vec<u8>) -> (r: Result<DiskManager, DbError>)
        ensures
            r is Ok <==> ((bitmap_image@.len() == 0 || checksum_ok(bitmap_image@)) && (
            bitmap_image@.len() == 0 || payload_of(bitmap_image@).len() <= MAX_WORDS)),
            r matches Ok(d) ==> d.wf() && forall|i: int| #[trigger]
                d.allocated(i) == (bitmap_image@.len() > 0 && bit_at(
                    payload_of(bitmap_image@),
                    i,
                )),
            r matches Err(e) ==> (e.kind == DbErrorKind::InvalidInput || e.kind
                == DbErrorKind::InvalidData),
    {
        let ghost img = bitmap_image@;
        match Bitmap::load(bitmap_image) {
            Ok(bitmap) => {
                if bitmap.len() > MAX_WORDS {
                    return Err(invalid_data("Bitmap is too large"));
                }
                let selector = Selector::new(bitmap);
                Ok(DiskManager { selector })
            },
            Err(e) => Err(e),
        }
    }

    /// Issues the smallest identifier not in use and marks it used. Fails only when
    /// every identifier that fits a `PageId` is in use.
    pub fn allocate_page(&mut self) -> (r: Result<PageId, DbError>)
        requires
            old(self).wf(),
        ensures
            final(self).wf(),
            r matches Ok(id) ==> {
                &&& id >= 0
                &&& !old(self).allocated(id as int)
                &&& forall|j: int| 0 <= j < id ==> old(self).allocated(j)
                &&& forall|i: int| #[trigger]
                    final(self).allocated(i) == (i == id || old(self).allocated(i))
            },
            r is Err ==> forall|j: int| 0 <= j < MAX_PAGES ==> old(self).allocated(j),
            r is Err ==> *final(self) == *old(self),
    {
        let idx = self.selector.vacant();
        if idx >= MAX_PAGES {
            return Err(not_found("Every page identifier is in use"));
        }
        self.selector.set_used(idx);
        Ok(idx as PageId)
    }

    /// Marks `page_id` as allocated without issuing it.
    pub fn mark_allocated(&mut self, page_id: PageId)
        requires
            old(self).wf(),
            page_id >= 0,
        ensures
            final(self).wf(),
            forall|i: int| #[trigger]
                final(self).allocated(i) == (i == page_id || old(self).allocated(i)),
    {
        self.selector.set_used(page_id as usize);
    }

    /// Releases `page_id`. Releasing a free identifier changes nothing.
    pub fn deallocate_page(&mut self, page_id: PageId)
        requires
            old(self).wf(),
            page_id >= 0,
        ensures
            final(self).wf(),
            forall|i: int| #[trigger]
                final(self).allocated(i) == (i != page_id && old(self).allocated(i)),
    {
        self.selector.set_free(page_id as usize);
    }

    /// Whether `page_id` is currently allocated.
    pub fn is_allocated(&self, page_id: PageId) -> (r: bool)
        requires
            self.wf(),
        ensures
            r == self.allocated(page_id as int),
    {
        if page_id < 0 {
            return false;
        }
        self.selector.is_used(page_id as usize)
    }

    /// Checks that page `page_id` may be read and gives its offset in the file.
    pub fn check_read(&self, page_id: PageId) -> (r: Result<u64, DbError>)
        requires
            self.wf(),
        ensures
            r is Ok <==> self.allocated(page_id as int),
            r matches Ok(off) ==> page_id >= 0 && off == offset_of(page_id as int),
            r matches Err(e) ==> e.kind == DbErrorKind::InvalidInput,
    {
        if !self.is_allocated(page_id) {
            return Err(invalid_input("The page is not allocated"));
        }
        Ok(page_offset(page_id))
    }

    /// Checks a page just read from the file: its stored checksum must be zero (a page
    /// never written) or match its payload.
    pub fn finish_read(&self, page: &[u8]) -> (r: Result<(), DbError>)
        ensures
            r is Ok <==> checksum_ok(page@),
            r matches Err(e) ==> (e.kind == DbErrorKind::InvalidData || (e.kind
                == DbErrorKind::InvalidInput && page@.len() < CHECKSUM_SIZE)),
    {
        validate_checksum(page)
    }

    /// Seals a page for writing: stores the checksum of its payload in its first eight
    /// bytes and gives the offset at which it belongs in the file.
    pub fn prepare_write(&self, page_id: PageId, page: &mut [u8]) -> (r: Result<u64, DbError>)
        requires
            page_id >= 0,
        ensures
            r is Err <==> old(page)@.len() < CHECKSUM_SIZE,
            r matches Err(e) ==> e.kind == DbErrorKind::InvalidInput,
            r matches Ok(off) ==> {
                &&& off == offset_of(page_id as int)
                &&& sealed(old(page)@, final(page)@)
            },
    {
        match update_checksum(page) {
            Ok(()) => Ok(page_offset(page_id)),
            Err(e) => Err(e),
        }
    }

    /// Compacts the bitmap and writes its checksum; `bitmap_image` then gives the bytes
    /// to store in the bitmap file.
    pub fn sync(&mut self)
        requires
            old(self).wf(),
        ensures
            final(self).wf(),
            forall|i: int| #[trigger] final(self).allocated(i) == old(self).allocated(i),
            checksum_ok(final(self).image()),
    {
        proof {
            crate::bitmap::lemma_strip_zeros(self.selector@);
            let p = self.selector@;
            let q = strip_zeros(p);
            assert forall|i: int| bit_at(q, i) == bit_at(p, i) by {
                if 0 <= i && i / 8 < p.len() && i / 8 >= q.len() {
                    crate::bitmap::lemma_zero_word_bits((i % 8) as u8);
                }
            }
        }
        self.selector.sync();
    }

    /// The bytes of the bitmap file, checksum first.
    pub closed spec fn image(&self) -> Seq<u8> {
        self.selector.image()
    }

    /// The bytes of the bitmap file, checksum first.
    pub fn bitmap_image(&self) -> (r: &[u8])
        requires
            self.wf(),
        ensures
            r@ == self.image(),
    {
        self.selector.bitmap().as_bytes()
    }
}

/// A page sealed for writing and read back unchanged passes the checksum test, and
/// its payload is the one that was written.
pub proof fn lemma_round_trip(before: Seq<u8>, after: Seq<u8>)
    requires
        sealed(before, after),
    ensures
        checksum_ok(after),
        payload_of(after) == payload_of(before),
{
    assert(payload_of(after) =~= payload_of(before));
}

/// A page of zeros, as an extended file gives it, passes the checksum test.
pub proof fn lemma_zero_page_accepted(page: Seq<u8>)
    requires
        page.len() == PAGE_SIZE,
        forall|i: int| 0 <= i < page.len() ==> page[i] == 0,
    ensures
        checksum_ok(page),
{
    let (b0, b1, b2, b3, b4, b5, b6, b7) = (page[0], page[1], page[2], page[3], page[4], page[5], page[6], page[7]);
    assert((b0 as u64) | ((b1 as u64) << 8u64) | ((b2 as u64) << 16u64) | ((b3 as u64) << 24u64)
        | ((b4 as u64) << 32u64) | ((b5 as u64) << 40u64) | ((b6 as u64) << 48u64) | ((b7 as u64)
        << 56u64) == 0) by (bit_vector)
        requires
            b0 == 0 && b1 == 0 && b2 == 0 && b3 == 0 && b4 == 0 && b5 == 0 && b6 == 0 && b7 == 0,
    ;
}

/// Deallocating an identifier twice leaves the same identifiers allocated as once.
pub proof fn lemma_deallocate_idempotent(d0: DiskManager, d1: DiskManager, d2: DiskManager, page_id: PageId)
    requires
        forall|i: int| #[trigger] d1.allocated(i) == (i != page_id && d0.allocated(i)),
        forall|i: int| #[trigger] d2.allocated(i) == (i != page_id && d1.allocated(i)),
    ensures
        forall|i: int| #[trigger] d2.allocated(i) == d1.allocated(i),
{
}

/// Allocation from identifiers `0 .. n` in use issues `n`, after which `0 .. n + 1` are
/// in use; so `n` allocations from an empty bitmap issue exactly `0 .. n`.
pub proof fn lemma_allocation_step(d0: DiskManager, d1: DiskManager, n: int, id: int)
    requires
        0 <= n,
        forall|i: int| #[trigger] d0.allocated(i) == (0 <= i < n),
        !d0.allocated(id),
        0 <= id,
        forall|j: int| 0 <= j < id ==> d0.allocated(j),
        forall|i: int| #[trigger] d1.allocated(i) == (i == id || d0.allocated(i)),
    ensures
        id == n,
        forall|i: int| #[trigger] d1.allocated(i) == (0 <= i < n + 1),
{
    if id < n {
        assert(d0.allocated(id));
    }
    if id > n {
        assert(d0.allocated(n));
    }
}

/// One change of the allocator, as `allocate_page` and `deallocate_page` make it.
pub enum AllocStep {
    Allocate(PageId),
    Deallocate(PageId),
}

/// The identifier that a step concerns.
pub open spec fn step_id(s: AllocStep) -> int {
    match s {
        AllocStep::Allocate(id) => id as int,
        AllocStep::Deallocate(id) => id as int,
    }
}

/// `d1` is `d0` after step `s`, as the contracts of `allocate_page` (on success) and
/// `deallocate_page` state it.
pub open spec fn step_effect(d0: DiskManager, d1: DiskManager, s: AllocStep) -> bool {
    match s {
        AllocStep::Allocate(id) => forall|i: int| #[trigger]
            d1.allocated(i) == (i == id || d0.allocated(i)),
        AllocStep::Deallocate(id) => forall|i: int| #[trigger]
            d1.allocated(i) == (i != id && d0.allocated(i)),
    }
}

/// The last of `steps` that concerns identifier `i`, if any.
pub open spec fn last_touch(steps: Seq<AllocStep>, i: int) -> Option<AllocStep>
    decreases steps.len(),
{
    if steps.len() == 0 {
        None
    } else if step_id(steps.last()) == i {
        Some(steps.last())
    } else {
        last_touch(steps.drop_last(), i)
    }
}

/// Over any run of allocations and deallocations, an identifier is allocated at the end
/// exactly when the last step that concerned it allocated it, or, if no step did, when it
/// was allocated at the start.
pub proof fn lemma_allocation_history(states: Seq<DiskManager>, steps: Seq<AllocStep>, i: int)
    requires
        states.len() == steps.len() + 1,
        forall|k: int| 0 <= k < steps.len() ==> #[trigger] step_effect(states[k], states[k + 1], steps[k]),
    ensures
        states.last().allocated(i) == match last_touch(steps, i) {
            Some(AllocStep::Allocate(_)) => true,
            Some(AllocStep::Deallocate(_)) => false,
            None => states[0].allocated(i),
        },
    decreases steps.len(),
{
    if steps.len() > 0 {
        let n = steps.len() - 1;
        assert(step_effect(states[n], states[n + 1], steps[n]));
        if step_id(steps.last()) != i {
            lemma_allocation_history(states.drop_last(), steps.drop_last(), i);
            assert(states.drop_last().last() == states[n]);
            assert(states.drop_last()[0] == states[0]);
        }
    }
}

/// `after` is `before` with the checksum of its payload stored in front of it.
pub open spec fn sealed(before: Seq<u8>, after: Seq<u8>) -> bool {
    &&& same_outside(before, after, 0, CHECKSUM_SIZE as int)
    &&& after.len() >= CHECKSUM_SIZE
    &&& stored_checksum(after) == page_hash(payload_of(before))
}

} // verus!
