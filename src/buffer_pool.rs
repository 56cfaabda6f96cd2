//! The buffer pool: a fixed set of frames caching pages of the database file.
//!
//! A page in use by a caller is pinned and is never evicted; an unpinned resident page is
//! a candidate of the LRU replacer; a frame holding no page is on the free list. Disk
//! transfers are carried out by the caller between the steps that the pool offers: when
//! a frame must be written back before it is reused, the pool says so and waits for the
//! outcome before it changes its tables.
use vstd::prelude::*;
use std::collections::HashMap;
use crate::checksum::checksum_ok;
use crate::config::{HEADER_PAGE_ID, INVALID_PAGE_ID, PAGE_SIZE, PageId};
use crate::disk_manager::{DiskManager, MAX_PAGES, offset_of, sealed};
use crate::error::{DbError, DbErrorKind, fails_with, already_exists, invalid_data, invalid_input, not_found};
use crate::replacer::{LRUReplacer, Replacer, without};

verus! {

broadcast use vstd::std_specs::hash::group_hash_axioms, vstd::laws_eq::group_laws_eq;

/// One slot of the pool.
pub struct Frame {
    /// The resident page, or `INVALID_PAGE_ID`.
    pub page_id: PageId,
    /// The page's bytes, `PAGE_SIZE` of them.
    pub data: Vec<u8>,
    /// Number of outstanding users; zero means evictable.
    pub pin_count: u32,
    /// Whether the bytes differ from those on disk.
    pub is_dirty: bool,
}

impl Frame {
    /// An empty frame.
    pub fn new() -> (r: Frame)
        ensures
            r.page_id == INVALID_PAGE_ID,
            r.data@ == Seq::new(PAGE_SIZE as nat, |i: int| 0u8),
            r.pin_count == 0,
            !r.is_dirty,
    {
        let data = vec![0u8; PAGE_SIZE];
        assert(data@ =~= Seq::new(PAGE_SIZE as nat, |i: int| 0u8));
        Frame { page_id: INVALID_PAGE_ID, data, pin_count: 0, is_dirty: false }
    }
}

/// Where a frame handed out for reuse came from.
pub enum Either<T> {
    FromFreeList(T),
    FromReplacer(T),
}

impl<T> Either<T> {
    /// The frame index, wherever it came from.
    pub open spec fn value(&self) -> T {
        match self {
            Either::FromFreeList(v) => *v,
            Either::FromReplacer(v) => *v,
        }
    }

    /// The frame index, wherever it came from.
    pub fn borrow(&self) -> (r: &T)
        ensures
            *r == self.value(),
    {
        match self {
            Either::FromFreeList(v) => v,
            Either::FromReplacer(v) => v,
        }
    }
}

/// A frame chosen for reuse, and the page it still holds if that page must be written
/// back first.
pub struct Grant {
    pub source: Either<usize>,
    pub write_back: Option<PageId>,
}

/// What `begin_fetch_page` found.
pub enum Lookup {
    /// The page is resident in this frame, now pinned once more.
    Resident(usize),
    /// The page must be brought in: this frame was chosen for it.
    Missing(Grant),
}

/// Rejects identifiers below `HEADER_PAGE_ID`.
pub fn validate(page_id: PageId) -> (r: Result<(), DbError>)
    ensures
        r is Ok <==> page_id >= HEADER_PAGE_ID,
        r is Err ==> fails_with(r, DbErrorKind::InvalidInput),
{
    if page_id < HEADER_PAGE_ID {
        return Err(invalid_input("Page ID is invalid"));
    }
    Ok(())
}

/// Keeps the first error of a sequence of outcomes: `acc` so far, then `next`.
pub fn first_error(acc: Result<(), DbError>, next: Result<(), DbError>) -> (r: Result<(), DbError>)
    ensures
        acc is Err ==> r == acc,
        acc is Ok ==> r == next,
{
    match acc {
        Err(e) => Err(e),
        Ok(()) => next,
    }
}

/// After `idx` is erased from `before`, every remaining candidate is an earlier one
/// other than `idx`.
proof fn lemma_erased_candidate(before: Seq<usize>, after: Seq<usize>, idx: usize)
    requires
        before.no_duplicates(),
        after == without(before, idx),
    ensures
        forall|k: int| 0 <= k < after.len() ==> #[trigger] after[k] != idx && before.contains(after[k]),
{
    assert forall|k: int| 0 <= k < after.len() implies #[trigger] after[k] != idx && before.contains(after[k]) by {
        if before.contains(idx) {
            let p = before.index_of(idx);
            if k < p {
                assert(after[k] == before[k]);
            } else {
                assert(after[k] == before[k + 1]);
            }
        } else {
            assert(after[k] == before[k]);
        }
    }
}

/// Overwrites every byte of `data` with zero.
fn zero_fill(data: &mut Vec<u8>)
    ensures
        final(data)@ == Seq::new(old(data)@.len(), |m: int| 0u8),
{
    let mut k: usize = 0;
    while k < data.len()
        invariant
            data@.len() == old(data)@.len(),
            k <= data@.len(),
            forall|m: int| 0 <= m < k ==> data@[m] == 0u8,
        decreases data@.len() - k,
    {
        data.set(k, 0u8);
        k = k + 1;
    }
    assert(data@ =~= Seq::new(old(data)@.len(), |m: int| 0u8));
}

/// Frame `i` of `pages` holds the page that `table` maps to it.
pub open spec fn holds(table: Map<PageId, usize>, pages: Seq<Frame>, i: int) -> bool {
    &&& table.contains_key(pages[i].page_id)
    &&& table[pages[i].page_id] == i
}

/// The frames, the page table and the free list.
pub struct Data {
    pub pool_size: usize,
    pub pages: Vec<Frame>,
    pub page_table: HashMap<PageId, usize>,
    pub free_list: Vec<usize>,
}

impl Data {
    /// `size` empty frames, with an empty page table and an empty free list.
    pub fn new(size: usize) -> (r: Data)
        ensures
            r.pool_size == size,
            r.pages@.len() == size,
            forall|i: int| 0 <= i < size ==> (#[trigger] r.pages@[i]).page_id == INVALID_PAGE_ID
                && r.pages@[i].data@.len() == PAGE_SIZE && r.pages@[i].pin_count == 0
                && !r.pages@[i].is_dirty,
            r.page_table@ == Map::<PageId, usize>::empty(),
            r.free_list@ == Seq::<usize>::empty(),
    {
        let mut pages: Vec<Frame> = Vec::new();
        let mut i: usize = 0;
        while i < size
            invariant
                i <= size,
                pages@.len() == i,
                forall|j: int| 0 <= j < i ==> (#[trigger] pages@[j]).page_id == INVALID_PAGE_ID
                    && pages@[j].data@.len() == PAGE_SIZE && pages@[j].pin_count == 0
                    && !pages@[j].is_dirty,
            decreases size - i,
        {
            pages.push(Frame::new());
            i = i + 1;
        }
        Data { pool_size: size, pages, page_table: HashMap::new(), free_list: Vec::new() }
    }
}

/// The buffer pool manager.
pub struct BufferPoolManager<R: Replacer<usize>> {
    data: Data,
    replacer: R,
    disk_mgr: DiskManager,
}

/// The pool with least-recently-used replacement.
pub type DefaultBufferPoolManager = BufferPoolManager<LRUReplacer<usize>>;

impl BufferPoolManager<LRUReplacer<usize>> {
    /// A pool of `pool_size` empty frames over `disk_mgr`, with an LRU replacer.
    pub fn new(pool_size: usize, disk_mgr: DiskManager) -> (r: DefaultBufferPoolManager)
        requires
            disk_mgr.wf(),
        ensures
            r.wf(),
            r.size() == pool_size,
            r.table() == Map::<PageId, usize>::empty(),
            r.candidates() == Seq::<usize>::empty(),
            r.free().len() == pool_size,
            forall|k: int| 0 <= k < pool_size ==> r.free()[k] == k,
            forall|i: int| 0 <= i < pool_size ==> (#[trigger] r.frame_at(i)).pin_count == 0
                && !r.frame_at(i).is_dirty,
            forall|j: int| #[trigger]
                r.disk().allocated(j) == ((0 <= j < HEADER_PAGE_ID) || disk_mgr.allocated(j)),
    {
        BufferPoolManager::with_replacer(pool_size, disk_mgr, LRUReplacer::new())
    }
}

impl<R: Replacer<usize>> BufferPoolManager<R> {
    /// Number of frames.
    pub closed spec fn size(&self) -> nat {
        self.data.pages@.len()
    }

    /// Frame `i`.
    pub closed spec fn frame_at(&self, i: int) -> Frame {
        self.data.pages@[i]
    }

    /// The page table: resident page identifier to frame index.
    pub closed spec fn table(&self) -> Map<PageId, usize> {
        self.data.page_table@
    }

    /// The free list, its top last.
    pub closed spec fn free(&self) -> Seq<usize> {
        self.data.free_list@
    }

    /// The replacer's candidates, the next victim first.
    pub closed spec fn candidates(&self) -> Seq<usize> {
        self.replacer.candidates()
    }

    /// The disk manager's state.
    pub closed spec fn disk(&self) -> DiskManager {
        self.disk_mgr
    }

    /// Frame `i` holds the page that the page table maps to it.
    pub open spec fn mapped(&self, i: int) -> bool {
        &&& self.table().contains_key(self.frame_at(i).page_id)
        &&& self.table()[self.frame_at(i).page_id] == i
    }

    /// The pool's invariant.
    pub closed spec fn wf(&self) -> bool {
        let pages = self.data.pages@;
        let table = self.data.page_table@;
        let free = self.data.free_list@;
        let lru = self.replacer.candidates();
        &&& forall|i: int| 0 <= i < pages.len() ==> (#[trigger] pages[i]).data@.len() == PAGE_SIZE
        &&& forall|id: PageId| #[trigger]
            table.contains_key(id) ==> {
                &&& table[id] < pages.len()
                &&& pages[table[id] as int].page_id == id
                &&& id >= HEADER_PAGE_ID
            }
        &&& free.no_duplicates()
        &&& forall|k: int| 0 <= k < free.len() ==> {
            &&& #[trigger] free[k] < pages.len()
            &&& !holds(table, pages, free[k] as int)
            &&& pages[free[k] as int].pin_count == 0
            &&& !pages[free[k] as int].is_dirty
        }
        &&& self.replacer.wf()
        &&& lru.no_duplicates()
        &&& forall|k: int| 0 <= k < lru.len() ==> {
            &&& #[trigger] lru[k] < pages.len()
            &&& holds(table, pages, lru[k] as int)
            &&& pages[lru[k] as int].pin_count == 0
        }
        &&& self.disk_mgr.wf()
        &&& forall|j: int| 0 <= j < HEADER_PAGE_ID ==> self.disk_mgr.allocated(j)
        &&& forall|id: PageId| #[trigger] table.contains_key(id) ==> self.disk_mgr.allocated(id as int)
    }

    /// A pool of `pool_size` empty frames over `disk_mgr`, choosing victims with the
    /// empty `replacer`. Identifiers below `HEADER_PAGE_ID` are marked allocated so that
    /// they are never issued.
    pub fn with_replacer(pool_size: usize, disk_mgr: DiskManager, replacer: R) -> (r: Self)
        requires
            disk_mgr.wf(),
            replacer.wf(),
            replacer.candidates().len() == 0,
        ensures
            r.wf(),
            r.size() == pool_size,
            r.table() == Map::<PageId, usize>::empty(),
            r.candidates() == Seq::<usize>::empty(),
            r.free().len() == pool_size,
            forall|k: int| 0 <= k < pool_size ==> r.free()[k] == k,
            forall|i: int| 0 <= i < pool_size ==> (#[trigger] r.frame_at(i)).pin_count == 0
                && !r.frame_at(i).is_dirty,
            forall|j: int| #[trigger]
                r.disk().allocated(j) == ((0 <= j < HEADER_PAGE_ID) || disk_mgr.allocated(j)),
    {
        let mut disk_mgr = disk_mgr;
        let ghost d0 = disk_mgr;
        let mut id: PageId = 0;
        while id < HEADER_PAGE_ID
            invariant
                0 <= id <= HEADER_PAGE_ID,
                disk_mgr.wf(),
                forall|j: int| #[trigger]
                    disk_mgr.allocated(j) == ((0 <= j < id) || d0.allocated(j)),
            decreases HEADER_PAGE_ID - id,
        {
            disk_mgr.mark_allocated(id);
            id = id + 1;
        }
        let mut data = Data::new(pool_size);
        let mut i: usize = 0;
        while i < pool_size
            invariant
                i <= pool_size,
                data.pages@.len() == pool_size,
                data.pool_size == pool_size,
                data.page_table@ == Map::<PageId, usize>::empty(),
                forall|j: int| 0 <= j < pool_size ==> (#[trigger] data.pages@[j]).page_id
                    == INVALID_PAGE_ID && data.pages@[j].data@.len() == PAGE_SIZE
                    && data.pages@[j].pin_count == 0 && !data.pages@[j].is_dirty,
                data.free_list@.len() == i,
                forall|k: int| 0 <= k < i ==> data.free_list@[k] == k,
            decreases pool_size - i,
        {
            data.free_list.push(i);
            i = i + 1;
        }
        let r = BufferPoolManager { data, replacer, disk_mgr };
        proof {
            assert forall|a: int, b: int| 0 <= a < b < r.free().len() implies r.free()[a]
                != r.free()[b] by {}
        }
        r
    }

    /// Frame `idx`.
    pub fn frame(&self, idx: usize) -> (r: &Frame)
        requires
            idx < self.size(),
        ensures
            *r == self.frame_at(idx as int),
    {
        &self.data.pages[idx]
    }

    /// The bytes of frame `idx`, for the caller to change while it holds the page pinned.
    pub fn frame_data_mut(&mut self, idx: usize) -> (r: &mut [u8])
        requires
            idx < old(self).size(),
        ensures
            r@ == old(self).frame_at(idx as int).data@,
            final(self).size() == old(self).size(),
            final(self).frame_at(idx as int).data@ == final(r)@,
            final(self).frame_at(idx as int).page_id == old(self).frame_at(idx as int).page_id,
            final(self).frame_at(idx as int).pin_count == old(self).frame_at(
                idx as int,
            ).pin_count,
            final(self).frame_at(idx as int).is_dirty == old(self).frame_at(idx as int).is_dirty,
            forall|j: int| 0 <= j < old(self).size() && j != idx ==> final(self).frame_at(j)
                == old(self).frame_at(j),
            final(self).table() == old(self).table(),
            final(self).free() == old(self).free(),
            final(self).candidates() == old(self).candidates(),
            final(self).disk() == old(self).disk(),
    {
        self.data.pages[idx].data.as_mut_slice()
    }


    /// The frame that page `page_id` occupies, if resident.
    fn lookup(&self, page_id: PageId) -> (r: Option<usize>)
        requires
            self.wf(),
        ensures
            r is None <==> !self.table().contains_key(page_id),
            r matches Some(i) ==> i == self.table()[page_id] && i < self.size() && self.frame_at(
                i as int,
            ).page_id == page_id && self.mapped(i as int),
    {
        match self.data.page_table.get(&page_id) {
            Some(i) => Some(*i),
            None => None,
        }
    }

    /// Whether frame `idx` holds the page that the page table maps to it.
    fn is_mapped(&self, idx: usize) -> (r: bool)
        requires
            self.wf(),
        ensures
            r == (idx < self.size() && self.mapped(idx as int)),
    {
        if idx >= self.data.pages.len() {
            return false;
        }
        match self.data.page_table.get(&self.data.pages[idx].page_id) {
            Some(i) => *i == idx,
            None => false,
        }
    }

    /// Releases one pin on page `page_id` and records whether the caller changed it. The
    /// frame becomes the replacer's most recent candidate when its last pin goes.
    pub fn unpin_page(&mut self, page_id: PageId, is_dirty: bool) -> (r: Result<(), DbError>)
        requires
            old(self).wf(),
        ensures
            final(self).wf(),
            !old(self).table().contains_key(page_id) ==> fails_with(r, DbErrorKind::NotFound),
            old(self).table().contains_key(page_id) && old(self).frame_at(
                old(self).table()[page_id] as int,
            ).pin_count == 0 ==> fails_with(r, DbErrorKind::InvalidData),
            r is Ok <==> old(self).table().contains_key(page_id) && old(self).frame_at(
                old(self).table()[page_id] as int,
            ).pin_count > 0,
            r is Err ==> *final(self) == *old(self),
            r is Ok ==> ({
                let i = old(self).table()[page_id] as int;
                let f = old(self).frame_at(i);
                &&& old(self).table().contains_key(page_id)
                &&& f.pin_count > 0
                &&& final(self).frame_at(i).pin_count == f.pin_count - 1
                &&& final(self).frame_at(i).is_dirty == (f.is_dirty || is_dirty)
                &&& final(self).frame_at(i).page_id == f.page_id
                &&& final(self).frame_at(i).data == f.data
                &&& final(self).candidates() == if f.pin_count == 1 {
                    without(old(self).candidates(), i as usize).push(i as usize)
                } else {
                    old(self).candidates()
                }
                &&& final(self).same_but_frame(old(self), i)
            }),
    {
        let idx = match self.lookup(page_id) {
            Some(i) => i,
            None => {
                return Err(not_found("Page not found in table"));
            },
        };
        if self.data.pages[idx].pin_count == 0 {
            return Err(invalid_data("Pin count <= 0, cannot be unpinned"));
        }
        let ghost before = self.data.pages@;
        let frame = &mut self.data.pages[idx];
        frame.pin_count = frame.pin_count - 1;
        frame.is_dirty = frame.is_dirty || is_dirty;
        let now_unpinned = frame.pin_count == 0;
        proof {
            self.lemma_holds_same(before, idx as int);
        }
        if now_unpinned {
            self.replacer.insert(idx);
            proof {
                self.lemma_insert_candidate(old(self).replacer.candidates(), idx);
            }
        }
        Ok(())
    }


    /// Deletes page `page_id`: a resident, unpinned page leaves the pool without being
    /// written and its frame goes to the free list; the identifier is deallocated whether
    /// or not the page was resident.
    pub fn delete_page(&mut self, page_id: PageId) -> (r: Result<(), DbError>)
        requires
            old(self).wf(),
        ensures
            final(self).wf(),
            page_id < HEADER_PAGE_ID ==> fails_with(r, DbErrorKind::InvalidInput),
            page_id >= HEADER_PAGE_ID && old(self).table().contains_key(page_id)
                && old(self).frame_at(old(self).table()[page_id] as int).pin_count > 0
                ==> fails_with(r, DbErrorKind::InvalidData),
            r is Ok <==> page_id >= HEADER_PAGE_ID && !(old(self).table().contains_key(page_id)
                && old(self).frame_at(old(self).table()[page_id] as int).pin_count > 0),
            r is Err ==> *final(self) == *old(self),
            r is Ok ==> {
                &&& page_id >= HEADER_PAGE_ID
                &&& final(self).table() == old(self).table().remove(page_id)
                &&& forall|j: int| #[trigger]
                    final(self).disk().allocated(j) == (j != page_id && old(self).disk().allocated(j))
                &&& final(self).size() == old(self).size()
                &&& old(self).table().contains_key(page_id) ==> ({
                    let i = old(self).table()[page_id];
                    let f = old(self).frame_at(i as int);
                    let g = final(self).frame_at(i as int);
                    &&& f.pin_count == 0
                    &&& final(self).free() == old(self).free().push(i)
                    &&& final(self).candidates() == without(old(self).candidates(), i)
                    &&& !g.is_dirty
                    &&& g.page_id == f.page_id && g.pin_count == f.pin_count && g.data == f.data
                    &&& forall|j: int| 0 <= j < old(self).size() && j != i ==> #[trigger] final(self).frame_at(j)
                        == old(self).frame_at(j)
                })
                &&& !old(self).table().contains_key(page_id) ==> {
                    &&& final(self).free() == old(self).free()
                    &&& final(self).candidates() == old(self).candidates()
                    &&& forall|j: int| #[trigger] final(self).frame_at(j) == old(self).frame_at(j)
                }
            },
    {
        match validate(page_id) {
            Ok(()) => {},
            Err(e) => {
                return Err(e);
            },
        }
        match self.lookup(page_id) {
            Some(idx) => {
                if self.data.pages[idx].pin_count > 0 {
                    return Err(invalid_data("Cannot delete pinned page"));
                }
                let ghost before = self.data.pages@;
                self.data.pages[idx].is_dirty = false;
                proof {
                    self.lemma_holds_same(before, idx as int);
                    assert(!self.data.free_list@.contains(idx)) by {
                        if self.data.free_list@.contains(idx) {
                            let k = self.data.free_list@.index_of(idx);
                            assert(!holds(self.data.page_table@, before, self.data.free_list@[k] as int));
                        }
                    }
                }
                self.data.free_list.push(idx);
                let ghost t0 = self.data.page_table@;
                self.data.page_table.remove(&page_id);
                let ghost lru0 = self.replacer.candidates();
                self.replacer.erase(&idx);
                proof {
                    let pages = self.data.pages@;
                    let t1 = self.data.page_table@;
                    assert(t1 == t0.remove(page_id));
                    assert forall|j: int| 0 <= j < pages.len() && j != idx implies holds(t1, pages, j) == holds(t0, pages, j) by {}
                    assert(!holds(t1, pages, idx as int));
                    let c = self.replacer.candidates();
                    lemma_erased_candidate(lru0, c, idx);
                    let f = self.data.free_list@;
                    assert forall|a: int, b: int| 0 <= a < b < f.len() implies f[a] != f[b] by {}
                }
            },
            None => {},
        }
        self.disk_mgr.deallocate_page(page_id);
        proof {
            assert forall|j: int| 0 <= j < HEADER_PAGE_ID implies self.disk_mgr.allocated(j) by {
                assert(old(self).disk_mgr.allocated(j));
            }
        }
        Ok(())
    }


    /// First step of flushing page `page_id`: the frame to write back if the page is
    /// resident and dirty, `None` if it is resident and clean (nothing to write). The
    /// caller writes the frame and reports the outcome to `finish_flush`.
    pub fn flush_target(&self, page_id: PageId) -> (r: Result<Option<usize>, DbError>)
        requires
            self.wf(),
        ensures
            page_id < HEADER_PAGE_ID ==> fails_with(r, DbErrorKind::InvalidInput),
            page_id >= HEADER_PAGE_ID && !self.table().contains_key(page_id) ==> fails_with(
                r,
                DbErrorKind::NotFound,
            ),
            r is Ok <==> page_id >= HEADER_PAGE_ID && self.table().contains_key(page_id),
            r matches Ok(o) ==> o == if self.frame_at(self.table()[page_id] as int).is_dirty {
                Some(self.table()[page_id])
            } else {
                None::<usize>
            },
    {
        match validate(page_id) {
            Ok(()) => {},
            Err(e) => {
                return Err(e);
            },
        }
        match self.lookup(page_id) {
            Some(idx) => if self.data.pages[idx].is_dirty {
                Ok(Some(idx))
            } else {
                Ok(None)
            },
            None => Err(not_found("Page not found in table")),
        }
    }

    /// The resident dirty frames, in index order.
    pub fn dirty_frames(&self) -> (r: Vec<usize>)
        requires
            self.wf(),
        ensures
            forall|i: usize| r@.contains(i) <==> (i < self.size() && self.mapped(i as int)
                && self.frame_at(i as int).is_dirty),
            forall|a: int, b: int| 0 <= a < b < r@.len() ==> r@[a] < r@[b],
    {
        let mut out: Vec<usize> = Vec::new();
        let mut i: usize = 0;
        while i < self.data.pages.len()
            invariant
                self.wf(),
                i <= self.size(),
                forall|x: usize| #[trigger] out@.contains(x) <==> (x < i && self.mapped(x as int)
                    && self.frame_at(x as int).is_dirty),
                forall|a: int, b: int| 0 <= a < b < out@.len() ==> out@[a] < out@[b],
                forall|a: int| 0 <= a < out@.len() ==> out@[a] < i,
            decreases self.size() - i,
        {
            if self.is_mapped(i) && self.data.pages[i].is_dirty {
                let ghost before = out@;
                out.push(i);
                assert(out@ == before.push(i));
                assert forall|x: usize| #[trigger] out@.contains(x) <==> (x < i + 1 && self.mapped(x as int)
                    && self.frame_at(x as int).is_dirty) by {
                    if out@.contains(x) {
                        let j = choose|j: int| 0 <= j < out@.len() && out@[j] == x;
                        if j < before.len() {
                            assert(before[j] == x);
                            assert(before.contains(x));
                        }
                    }
                    if x < i && self.mapped(x as int) && self.frame_at(x as int).is_dirty {
                        assert(before.contains(x));
                        let j = choose|j: int| 0 <= j < before.len() && before[j] == x;
                        assert(out@[j] == x);
                    }
                    if x == i {
                        assert(out@[before.len() as int] == i);
                    }
                }
            } else {
                assert(!out@.contains(i));
                assert(!(self.mapped(i as int) && self.frame_at(i as int).is_dirty));
                assert forall|x: usize| #[trigger] out@.contains(x) <==> (x < i + 1 && self.mapped(x as int)
                    && self.frame_at(x as int).is_dirty) by {
                    if x == i {
                        assert(!out@.contains(x));
                    }
                }
            }
            i = i + 1;
        }
        out
    }

    /// Seals frame `idx` for writing back: stores the checksum of its payload in its first
    /// eight bytes and gives the offset of its page in the database file. The frame must
    /// hold a mapped page.
    pub fn seal_frame(&mut self, idx: usize) -> (r: Result<u64, DbError>)
        requires
            old(self).wf(),
        ensures
            final(self).wf(),
            r is Ok <==> idx < old(self).size() && old(self).mapped(idx as int),
            r is Err ==> fails_with(r, DbErrorKind::InvalidInput) && *final(self) == *old(self),
            r matches Ok(off) ==> ({
                let f = old(self).frame_at(idx as int);
                let g = final(self).frame_at(idx as int);
                &&& off == offset_of(f.page_id as int)
                &&& sealed(f.data@, g.data@)
                &&& g.page_id == f.page_id && g.pin_count == f.pin_count && g.is_dirty == f.is_dirty
                &&& final(self).same_but_frame(old(self), idx as int)
                &&& final(self).candidates() == old(self).candidates()
            }),
    {
        if !self.is_mapped(idx) {
            return Err(invalid_input("Frame holds no mapped page"));
        }
        let page_id = self.data.pages[idx].page_id;
        let ghost before = self.data.pages@;
        let dm = &self.disk_mgr;
        let frame = &mut self.data.pages[idx];
        let r = dm.prepare_write(page_id, frame.data.as_mut_slice());
        proof {
            self.lemma_holds_same(before, idx as int);
        }
        r
    }

    /// Last step of a flush: `written` is the outcome of writing frame `idx` back. On
    /// success the frame is clean; a failed write is handed back and changes nothing.
    pub fn finish_flush(&mut self, idx: usize, written: Result<(), DbError>) -> (r: Result<(), DbError>)
        requires
            old(self).wf(),
        ensures
            final(self).wf(),
            match written {
                Err(e) => r == Err::<(), DbError>(e),
                Ok(_) => (r is Ok <==> idx < old(self).size()),
            },
            written is Ok && idx >= old(self).size() ==> fails_with(r, DbErrorKind::InvalidInput),
            r is Err ==> *final(self) == *old(self),
            r is Ok ==> ({
                let f = old(self).frame_at(idx as int);
                let g = final(self).frame_at(idx as int);
                &&& idx < old(self).size()
                &&& !g.is_dirty
                &&& g.page_id == f.page_id && g.pin_count == f.pin_count && g.data == f.data
                &&& final(self).same_but_frame(old(self), idx as int)
                &&& final(self).candidates() == old(self).candidates()
            }),
    {
        match written {
            Err(e) => {
                return Err(e);
            },
            Ok(()) => {},
        }
        if idx >= self.data.pages.len() {
            return Err(invalid_input("No such frame"));
        }
        let ghost before = self.data.pages@;
        self.data.pages[idx].is_dirty = false;
        proof {
            self.lemma_holds_same(before, idx as int);
        }
        Ok(())
    }

    /// Chooses a frame for a page that is to be brought in: the top of the free list,
    /// else the replacer's victim, which leaves the replacer.
    fn acquire(&mut self) -> (r: Result<Grant, DbError>)
        requires
            old(self).wf(),
        ensures
            final(self).wf(),
            final(self).same_but_frame(old(self), -1),
            old(self).free().len() > 0 ==> *final(self) == *old(self) && r == Ok::<Grant, DbError>(
                Grant { source: Either::FromFreeList(old(self).free().last()), write_back: None },
            ),
            old(self).free().len() == 0 && old(self).candidates().len() == 0 ==> fails_with(
                r,
                DbErrorKind::NotFound,
            ) && *final(self) == *old(self),
            old(self).free().len() == 0 && old(self).candidates().len() > 0 ==> ({
                let v = old(self).candidates()[0];
                let f = old(self).frame_at(v as int);
                &&& r == Ok::<Grant, DbError>(
                    Grant {
                        source: Either::FromReplacer(v),
                        write_back: if f.is_dirty {
                            Some(f.page_id)
                        } else {
                            None
                        },
                    },
                )
                &&& final(self).candidates() == old(self).candidates().drop_first()
            }),
            r matches Ok(g) ==> final(self).grant_valid(g),
    {
        let n = self.data.free_list.len();
        if n > 0 {
            let idx = self.data.free_list[n - 1];
            return Ok(Grant { source: Either::FromFreeList(idx), write_back: None });
        }
        if self.replacer.size() == 0 {
            return Err(not_found("Replacer cannot find a victim"));
        }
        let ghost lru0 = self.replacer.candidates();
        match self.replacer.victim() {
            Some(idx) => {
                proof {
                    let c = self.replacer.candidates();
                    assert forall|k: int| 0 <= k < c.len() implies #[trigger] c[k] == lru0[k + 1] by {}
                    assert(lru0[0] < self.data.pages@.len());
                    assert(holds(self.data.page_table@, self.data.pages@, idx as int));
                }
                let f = &self.data.pages[idx];
                let write_back = if f.is_dirty {
                    Some(f.page_id)
                } else {
                    None
                };
                Ok(Grant { source: Either::FromReplacer(idx), write_back })
            },
            None => Err(not_found("Replacer cannot find a victim")),
        }
    }

    /// First step of creating a page: chooses the frame for it; no page exists yet. When
    /// the grant names a page to write back, the caller writes it and reports the outcome
    /// to `complete_acquire`, which creates the page.
    pub fn begin_new_page(&mut self) -> (r: Result<Grant, DbError>)
        requires
            old(self).wf(),
        ensures
            final(self).wf(),
            final(self).same_but_frame(old(self), -1),
            old(self).free().len() > 0 ==> *final(self) == *old(self) && r == Ok::<Grant, DbError>(
                Grant { source: Either::FromFreeList(old(self).free().last()), write_back: None },
            ),
            old(self).free().len() == 0 && old(self).candidates().len() == 0 ==> fails_with(
                r,
                DbErrorKind::NotFound,
            ) && *final(self) == *old(self),
            old(self).free().len() == 0 && old(self).candidates().len() > 0 ==> ({
                let v = old(self).candidates()[0];
                let f = old(self).frame_at(v as int);
                &&& r == Ok::<Grant, DbError>(
                    Grant {
                        source: Either::FromReplacer(v),
                        write_back: if f.is_dirty {
                            Some(f.page_id)
                        } else {
                            None
                        },
                    },
                )
                &&& final(self).candidates() == old(self).candidates().drop_first()
            }),
            r matches Ok(g) ==> final(self).grant_valid(g),
    {
        self.acquire()
    }

    /// First step of fetching page `page_id`. A resident page is pinned once more and
    /// leaves the replacer: the fetch is done. A page that is not allocated is refused
    /// with nothing changed. Otherwise a frame is chosen for it as by `begin_new_page`,
    /// and the caller completes the fetch with `complete_acquire` and `finish_load`.
    pub fn begin_fetch_page(&mut self, page_id: PageId) -> (r: Result<Lookup, DbError>)
        requires
            old(self).wf(),
        ensures
            final(self).wf(),
            page_id < HEADER_PAGE_ID ==> fails_with(r, DbErrorKind::InvalidInput) && *final(self)
                == *old(self),
            page_id >= HEADER_PAGE_ID && old(self).table().contains_key(page_id) ==> ({
                let i = old(self).table()[page_id];
                let f = old(self).frame_at(i as int);
                &&& f.pin_count < u32::MAX ==> {
                    &&& r == Ok::<Lookup, DbError>(Lookup::Resident(i))
                    &&& final(self).frame_at(i as int).pin_count == f.pin_count + 1
                    &&& final(self).frame_at(i as int).page_id == f.page_id
                    &&& final(self).frame_at(i as int).is_dirty == f.is_dirty
                    &&& final(self).frame_at(i as int).data == f.data
                    &&& final(self).same_but_frame(old(self), i as int)
                    &&& final(self).candidates() == without(old(self).candidates(), i)
                }
                &&& f.pin_count == u32::MAX ==> fails_with(r, DbErrorKind::InvalidData)
                    && *final(self) == *old(self)
            }),
            page_id >= HEADER_PAGE_ID && !old(self).table().contains_key(page_id) && !old(
                self,
            ).disk().allocated(page_id as int) ==> fails_with(r, DbErrorKind::InvalidInput)
                && *final(self) == *old(self),
            page_id >= HEADER_PAGE_ID && !old(self).table().contains_key(page_id) && old(
                self,
            ).disk().allocated(page_id as int) ==> ({
                &&& final(self).same_but_frame(old(self), -1)
                &&& old(self).free().len() > 0 ==> *final(self) == *old(self) && r == Ok::<
                    Lookup,
                    DbError,
                >(
                    Lookup::Missing(
                        Grant {
                            source: Either::FromFreeList(old(self).free().last()),
                            write_back: None,
                        },
                    ),
                )
                &&& old(self).free().len() == 0 && old(self).candidates().len() == 0
                    ==> fails_with(r, DbErrorKind::NotFound) && *final(self) == *old(self)
                &&& old(self).free().len() == 0 && old(self).candidates().len() > 0 ==> ({
                    let v = old(self).candidates()[0];
                    let f = old(self).frame_at(v as int);
                    &&& r == Ok::<Lookup, DbError>(
                        Lookup::Missing(
                            Grant {
                                source: Either::FromReplacer(v),
                                write_back: if f.is_dirty {
                                    Some(f.page_id)
                                } else {
                                    None
                                },
                            },
                        ),
                    )
                    &&& final(self).candidates() == old(self).candidates().drop_first()
                })
            }),
            match r {
                Ok(Lookup::Missing(g)) => final(self).grant_valid(g),
                _ => true,
            },
    {
        match validate(page_id) {
            Ok(()) => {},
            Err(e) => {
                return Err(e);
            },
        }
        match self.lookup(page_id) {
            Some(idx) => {
                if self.data.pages[idx].pin_count == u32::MAX {
                    return Err(invalid_data("Pin count overflow"));
                }
                let ghost before = self.data.pages@;
                let frame = &mut self.data.pages[idx];
                frame.pin_count = frame.pin_count + 1;
                proof {
                    self.lemma_holds_same(before, idx as int);
                }
                let ghost lru0 = self.replacer.candidates();
                self.replacer.erase(&idx);
                proof {
                    let c = self.replacer.candidates();
                    lemma_erased_candidate(lru0, c, idx);
                }
                Ok(Lookup::Resident(idx))
            },
            None => if !self.disk_mgr.is_allocated(page_id) {
                Err(invalid_input("The page is not allocated"))
            } else {
                match self.acquire() {
                    Ok(g) => Ok(Lookup::Missing(g)),
                    Err(e) => Err(e),
                }
            },
        }
    }


    /// The grant still names a frame that may be reused.
    pub open spec fn grant_valid(&self, g: Grant) -> bool {
        match g.source {
            Either::FromFreeList(i) => self.free().len() > 0 && self.free().last() == i,
            Either::FromReplacer(i) => i < self.size() && self.mapped(i as int) && self.frame_at(
                i as int,
            ).pin_count == 0,
        }
    }

    /// `self` is `old` after a failed reuse of the frame of `g`: a victim returns to the
    /// replacer as its most recent candidate; a free frame stays where it was.
    pub open spec fn rolled_back(&self, old: &Self, g: Grant) -> bool {
        match g.source {
            Either::FromFreeList(_) => *self == *old,
            Either::FromReplacer(i) => {
                &&& self.same_but_frame(old, -1)
                &&& self.candidates() == without(old.candidates(), i).push(i)
            },
        }
    }

    fn roll_back(&mut self, from_free: bool, idx: usize)
        requires
            old(self).wf(),
            !from_free ==> idx < old(self).size() && old(self).mapped(idx as int)
                && old(self).frame_at(idx as int).pin_count == 0,
        ensures
            final(self).wf(),
            from_free ==> *final(self) == *old(self),
            !from_free ==> final(self).same_but_frame(old(self), -1) && final(self).candidates()
                == without(old(self).candidates(), idx).push(idx),
    {
        if !from_free {
            let ghost lru0 = self.replacer.candidates();
            self.replacer.insert(idx);
            proof {
                self.lemma_insert_candidate(lru0, idx);
            }
        }
    }

    /// Completes the reuse of the frame named by `grant`, once any write-back that it
    /// asked for has been attempted (`flushed`). On success the frame holds page
    /// `requested`, or a newly allocated page when `requested` is `None`, pinned once, clean,
    /// and zero-filled if `need_reset`. On failure nothing changes, except that a victim
    /// returns to the replacer.
    pub fn complete_acquire(
        &mut self,
        grant: Grant,
        flushed: Result<(), DbError>,
        requested: Option<PageId>,
        need_reset: bool,
    ) -> (r: Result<usize, DbError>)
        requires
            old(self).wf(),
        ensures
            final(self).wf(),
            !old(self).grant_valid(grant) ==> fails_with(r, DbErrorKind::InvalidInput)
                && *final(self) == *old(self),
            old(self).grant_valid(grant) && flushed is Err ==> r is Err && final(self).rolled_back(
                old(self),
                grant,
            ),
            old(self).grant_valid(grant) ==> match flushed {
                Err(e) => r == Err::<usize, DbError>(e),
                Ok(_) => true,
            },
            old(self).grant_valid(grant) && flushed is Ok && match requested {
                Some(id) => id >= HEADER_PAGE_ID && old(self).disk().allocated(id as int)
                    && !old(self).table().contains_key(id),
                None => exists|j: int| 0 <= j < MAX_PAGES && !old(self).disk().allocated(j),
            } ==> r is Ok,
            r matches Ok(i) ==> i < final(self).size() && final(self).mapped(i as int),
            forall|id: PageId|
                old(self).grant_valid(grant) && flushed is Ok && requested == Some(id) && (id
                    < HEADER_PAGE_ID || !old(self).disk().allocated(id as int)) ==> fails_with(
                    r,
                    DbErrorKind::InvalidInput,
                ),
            forall|id: PageId|
                old(self).grant_valid(grant) && flushed is Ok && requested == Some(id) && id
                    >= HEADER_PAGE_ID && old(self).disk().allocated(id as int) && #[trigger] old(
                    self,
                ).table().contains_key(id) ==> fails_with(r, DbErrorKind::AlreadyExists),
            r is Err && old(self).grant_valid(grant) ==> final(self).rolled_back(old(self), grant),
            r matches Ok(i) ==> ({
                let f = old(self).frame_at(i as int);
                let g = final(self).frame_at(i as int);
                let id = g.page_id;
                let from_free = grant.source is FromFreeList;
                &&& old(self).grant_valid(grant)
                &&& flushed is Ok
                &&& i == grant.source.value()
                &&& g.pin_count == 1
                &&& !g.is_dirty
                &&& g.data@ == if need_reset {
                    Seq::new(PAGE_SIZE as nat, |k: int| 0u8)
                } else {
                    f.data@
                }
                &&& id >= HEADER_PAGE_ID
                &&& !old(self).table().contains_key(id)
                &&& requested matches Some(q) ==> id == q && final(self).disk() == old(self).disk()
                &&& requested is None ==> {
                    &&& !old(self).disk().allocated(id as int)
                    &&& forall|j: int| 0 <= j < id ==> old(self).disk().allocated(j)
                    &&& forall|j: int| #[trigger]
                        final(self).disk().allocated(j) == (j == id || old(self).disk().allocated(j))
                }
                &&& final(self).table() == (if from_free {
                    old(self).table()
                } else {
                    old(self).table().remove(f.page_id)
                }).insert(id, i)
                &&& final(self).free() == if from_free {
                    old(self).free().drop_last()
                } else {
                    old(self).free()
                }
                &&& final(self).candidates() == without(old(self).candidates(), i)
                &&& final(self).size() == old(self).size()
                &&& forall|j: int| 0 <= j < old(self).size() && j != i ==> #[trigger] final(self).frame_at(j) == old(self).frame_at(j)
            }),
    {
        let from_free = match grant.source {
            Either::FromFreeList(_) => true,
            Either::FromReplacer(_) => false,
        };
        let idx = *grant.source.borrow();
        let valid = if from_free {
            let n = self.data.free_list.len();
            n > 0 && self.data.free_list[n - 1] == idx
        } else {
            self.is_mapped(idx) && self.data.pages[idx].pin_count == 0
        };
        if !valid {
            return Err(invalid_input("The frame grant is stale"));
        }
        proof {
            if from_free {
                let k = self.data.free_list@.len() - 1;
                assert(self.data.free_list@[k] == idx);
            }
        }
        match flushed {
            Err(e) => {
                self.roll_back(from_free, idx);
                return Err(e);
            },
            Ok(()) => {},
        }
        let new_id = match requested {
            Some(id) => {
                if id < HEADER_PAGE_ID || !self.disk_mgr.is_allocated(id) {
                    self.roll_back(from_free, idx);
                    return Err(invalid_input("The page is not allocated"));
                }
                if self.lookup(id).is_some() {
                    self.roll_back(from_free, idx);
                    return Err(already_exists("The page is resident already"));
                }
                id
            },
            None => {
                let ghost d0 = self.disk_mgr;
                match self.disk_mgr.allocate_page() {
                    Ok(id) => {
                        proof {
                            assert forall|j: int| 0 <= j < HEADER_PAGE_ID implies self.disk_mgr.allocated(j) by {
                                assert(d0.allocated(j));
                            }
                            if id < HEADER_PAGE_ID {
                                assert(d0.allocated(id as int));
                            }
                            assert(!self.data.page_table@.contains_key(id));
                            assert forall|pid: PageId| #[trigger] self.data.page_table@.contains_key(pid) implies self.disk_mgr.allocated(pid as int) by {
                                assert(d0.allocated(pid as int));
                            }
                        }
                        id
                    },
                    Err(e) => {
                        self.roll_back(from_free, idx);
                        return Err(e);
                    },
                }
            },
        };
        let ghost t0 = self.data.page_table@;
        let ghost pages0 = self.data.pages@;
        let ghost lru0 = self.replacer.candidates();
        let ghost free0 = self.data.free_list@;
        if from_free {
            self.data.free_list.pop();
        } else {
            let old_id = self.data.pages[idx].page_id;
            self.data.page_table.remove(&old_id);
            self.replacer.erase(&idx);
        }
        let frame = &mut self.data.pages[idx];
        frame.page_id = new_id;
        frame.is_dirty = false;
        frame.pin_count = 1;
        if need_reset {
            zero_fill(&mut frame.data);
        }
        self.data.page_table.insert(new_id, idx);
        proof {
            let t1 = self.data.page_table@;
            let pages1 = self.data.pages@;
            assert forall|j: int| 0 <= j < pages1.len() && j != idx implies #[trigger] holds(t1, pages1, j) == holds(t0, pages0, j) by {
                assert(pages1[j] == pages0[j]);
            }
            assert(holds(t1, pages1, idx as int));
            assert forall|id: PageId| #[trigger] t1.contains_key(id) implies t1[id] < pages1.len()
                && pages1[t1[id] as int].page_id == id && id >= HEADER_PAGE_ID
                && self.disk_mgr.allocated(id as int) by {
                if id != new_id {
                    assert(t0.contains_key(id));
                }
            }
            if from_free {
                assert(self.data.free_list@ == free0.drop_last());
                assert forall|k: int| 0 <= k < self.data.free_list@.len() implies #[trigger] self.data.free_list@[k] != idx by {
                    assert(free0[k] != free0[free0.len() - 1]);
                }
                assert forall|k: int| 0 <= k < lru0.len() implies #[trigger] lru0[k] != idx by {}
                assert(!lru0.contains(idx));
                assert(without(lru0, idx) == lru0);
            } else {
                assert forall|k: int| 0 <= k < free0.len() implies #[trigger] free0[k] != idx by {}
                let c = self.replacer.candidates();
                lemma_erased_candidate(lru0, c, idx);
            }
        }
        Ok(idx)
    }


    /// Completes a fetch: `page` is what the disk gave for the page of frame `idx`, or the
    /// error that reading it met. A full page whose checksum holds becomes the frame's
    /// contents; otherwise the frame is released to the free list and the error returned.
    pub fn finish_load(&mut self, idx: usize, page: Result<Vec<u8>, DbError>) -> (r: Result<(), DbError>)
        requires
            old(self).wf(),
        ensures
            final(self).wf(),
            !(idx < old(self).size() && old(self).mapped(idx as int)) ==> fails_with(
                r,
                DbErrorKind::InvalidInput,
            ) && *final(self) == *old(self),
            idx < old(self).size() && old(self).mapped(idx as int) ==> ({
                let f = old(self).frame_at(idx as int);
                let g = final(self).frame_at(idx as int);
                let good = match page {
                    Ok(b) => b@.len() == PAGE_SIZE && checksum_ok(b@),
                    Err(_) => false,
                };
                &&& r is Ok <==> good
                &&& match page {
                    Err(e) => r == Err::<(), DbError>(e),
                    Ok(_) => true,
                }
                &&& match page {
                    Ok(b) => {
                        &&& good ==> g.data@ == b@
                        &&& b@.len() != PAGE_SIZE ==> fails_with(r, DbErrorKind::InvalidData)
                        &&& b@.len() == PAGE_SIZE && !checksum_ok(b@) ==> fails_with(
                            r,
                            DbErrorKind::InvalidData,
                        )
                    },
                    Err(_) => true,
                }
                &&& good ==> g.page_id == f.page_id && g.pin_count == f.pin_count && g.is_dirty
                    == f.is_dirty && final(self).same_but_frame(old(self), idx as int)
                    && final(self).candidates() == old(self).candidates()
                &&& !good ==> {
                    &&& g.pin_count == 0 && !g.is_dirty && g.page_id == f.page_id && g.data == f.data
                    &&& final(self).size() == old(self).size()
                    &&& forall|j: int| 0 <= j < old(self).size() && j != idx ==> #[trigger] final(self).frame_at(j) == old(self).frame_at(j)
                    &&& final(self).table() == old(self).table().remove(f.page_id)
                    &&& final(self).free() == old(self).free().push(idx)
                    &&& final(self).candidates() == without(old(self).candidates(), idx)
                    &&& final(self).disk() == old(self).disk()
                }
            }),
    {
        if !self.is_mapped(idx) {
            return Err(invalid_input("Frame holds no mapped page"));
        }
        match page {
            Ok(bytes) => {
                if bytes.len() != PAGE_SIZE {
                    self.release(idx);
                    return Err(invalid_data("Short page"));
                }
                match self.disk_mgr.finish_read(bytes.as_slice()) {
                    Ok(()) => {
                        let ghost before = self.data.pages@;
                        self.data.pages[idx].data = bytes;
                        proof {
                            self.lemma_holds_same(before, idx as int);
                        }
                        Ok(())
                    },
                    Err(e) => {
                        self.release(idx);
                        Err(e)
                    },
                }
            },
            Err(e) => {
                self.release(idx);
                Err(e)
            },
        }
    }

    /// Frees frame `idx`, which holds a mapped page: the page leaves the page table and
    /// the frame goes, unpinned and clean, to the free list.
    fn release(&mut self, idx: usize)
        requires
            old(self).wf(),
            idx < old(self).size(),
            old(self).mapped(idx as int),
        ensures
            final(self).wf(),
            ({
                let f = old(self).frame_at(idx as int);
                let g = final(self).frame_at(idx as int);
                &&& g.pin_count == 0 && !g.is_dirty && g.page_id == f.page_id && g.data == f.data
                &&& final(self).size() == old(self).size()
                &&& forall|j: int| 0 <= j < old(self).size() && j != idx ==> #[trigger] final(self).frame_at(j) == old(self).frame_at(j)
                &&& final(self).table() == old(self).table().remove(f.page_id)
                &&& final(self).free() == old(self).free().push(idx)
                &&& final(self).candidates() == without(old(self).candidates(), idx)
                &&& final(self).disk() == old(self).disk()
            }),
    {
        let page_id = self.data.pages[idx].page_id;
        let ghost t0 = self.data.page_table@;
        let ghost pages0 = self.data.pages@;
        let ghost lru0 = self.replacer.candidates();
        let ghost free0 = self.data.free_list@;
        proof {
            assert forall|k: int| 0 <= k < free0.len() implies #[trigger] free0[k] != idx by {}
        }
        self.data.page_table.remove(&page_id);
        let frame = &mut self.data.pages[idx];
        frame.pin_count = 0;
        frame.is_dirty = false;
        self.data.free_list.push(idx);
        self.replacer.erase(&idx);
        proof {
            let t1 = self.data.page_table@;
            let pages1 = self.data.pages@;
            assert forall|j: int| 0 <= j < pages1.len() && j != idx implies #[trigger] holds(t1, pages1, j) == holds(t0, pages0, j) by {
                assert(pages1[j] == pages0[j]);
            }
            assert(!holds(t1, pages1, idx as int));
            assert forall|id: PageId| #[trigger] t1.contains_key(id) implies t1[id] < pages1.len()
                && pages1[t1[id] as int].page_id == id && id >= HEADER_PAGE_ID
                && self.disk_mgr.allocated(id as int) by {
                assert(t0.contains_key(id));
            }
            let f = self.data.free_list@;
            assert forall|a: int, b: int| 0 <= a < b < f.len() implies f[a] != f[b] by {}
            let c = self.replacer.candidates();
            lemma_erased_candidate(lru0, c, idx);
        }
    }


    /// The pool's invariant, in terms of what callers see: every page-table entry
    /// `(id -> i)` names a frame holding page `id`; a frame is on the free list, in the
    /// replacer, or mapped and pinned, never two of these; a frame in the replacer is
    /// unpinned; pin counts are never negative.
    pub proof fn lemma_pool_invariants(&self)
        requires
            self.wf(),
        ensures
            forall|i: int| 0 <= i < self.size() ==> (#[trigger] self.frame_at(i)).pin_count >= 0,
            forall|id: PageId| #[trigger]
                self.table().contains_key(id) ==> self.table()[id] < self.size()
                    && self.frame_at(self.table()[id] as int).page_id == id
                    && self.mapped(self.table()[id] as int),
            forall|k: int| 0 <= k < self.candidates().len() ==> (#[trigger] self.frame_at(
                self.candidates()[k] as int,
            )).pin_count == 0,
            forall|k: int, m: int|
                0 <= k < self.free().len() && 0 <= m < self.candidates().len() ==> #[trigger] self.free()[k]
                    != #[trigger] self.candidates()[m],
            forall|k: int| 0 <= k < self.free().len() ==> !#[trigger] self.mapped(self.free()[k] as int),
            forall|k: int| 0 <= k < self.candidates().len() ==> #[trigger] self.mapped(self.candidates()[k] as int),
            self.free().no_duplicates(),
            self.candidates().no_duplicates(),
    {
        assert forall|k: int, m: int|
            0 <= k < self.free().len() && 0 <= m < self.candidates().len() implies #[trigger] self.free()[k]
                != #[trigger] self.candidates()[m] by {
            assert(!holds(self.data.page_table@, self.data.pages@, self.data.free_list@[k] as int));
            assert(holds(self.data.page_table@, self.data.pages@, self.replacer.candidates()[m] as int));
        }
    }

    /// Everything but frame `i` and the replacer is as in `other`.
    pub open spec fn same_but_frame(&self, other: &Self, i: int) -> bool {
        &&& self.size() == other.size()
        &&& forall|j: int| 0 <= j < self.size() && j != i ==> #[trigger] self.frame_at(j)
            == other.frame_at(j)
        &&& self.table() == other.table()
        &&& self.free() == other.free()
        &&& self.disk() == other.disk()
    }

    proof fn lemma_holds_same(&self, before: Seq<Frame>, i: int)
        requires
            before.len() == self.data.pages@.len(),
            0 <= i < before.len(),
            before[i].page_id == self.data.pages@[i].page_id,
            forall|j: int| 0 <= j < before.len() && j != i ==> before[j] == self.data.pages@[j],
        ensures
            forall|j: int| 0 <= j < before.len() ==> holds(self.data.page_table@, before, j)
                == #[trigger] holds(self.data.page_table@, self.data.pages@, j),
    {
    }

    proof fn lemma_insert_candidate(&self, old_lru: Seq<usize>, idx: usize)
        requires
            old_lru.no_duplicates(),
            self.replacer.candidates() == without(old_lru, idx).push(idx),
        ensures
            forall|k: int| 0 <= k < self.replacer.candidates().len() ==> (#[trigger] self.replacer.candidates()[k] == idx || old_lru.contains(self.replacer.candidates()[k])),
    {
        let c = self.replacer.candidates();
        assert forall|k: int| 0 <= k < c.len() implies (#[trigger] c[k] == idx || old_lru.contains(c[k])) by {
            if k < c.len() - 1 && old_lru.contains(idx) {
                let p = old_lru.index_of(idx);
                if k < p {
                    assert(c[k] == old_lru[k]);
                } else {
                    assert(c[k] == old_lru[k + 1]);
                }
            } else if k < c.len() - 1 {
                assert(c[k] == old_lru[k]);
            }
        }
    }

    /// The disk manager.
    pub fn disk_manager(&self) -> (r: &DiskManager)
        ensures
            *r == self.disk(),
    {
        &self.disk_mgr
    }

    /// The disk manager, to persist its bitmap.
    pub fn sync_disk_manager(&mut self)
        requires
            old(self).wf(),
        ensures
            final(self).wf(),
            final(self).size() == old(self).size(),
            final(self).table() == old(self).table(),
            final(self).free() == old(self).free(),
            final(self).candidates() == old(self).candidates(),
            forall|i: int| #[trigger] final(self).frame_at(i) == old(self).frame_at(i),
            forall|j: int| #[trigger] final(self).disk().allocated(j) == old(self).disk().allocated(j),
            checksum_ok(final(self).disk().image()),
    {
        self.disk_mgr.sync();
        assert forall|j: int| 0 <= j < HEADER_PAGE_ID implies self.disk_mgr.allocated(j) by {
            assert(old(self).disk_mgr.allocated(j));
        }
    }
}

} // verus!
