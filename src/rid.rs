//! Record identifiers: a page and a slot within it.
use vstd::prelude::*;
use crate::config::{INVALID_PAGE_ID, PageId};

verus! {

/// Where a record lives: its page and its slot in that page.
#[derive(Clone, Copy, Debug, PartialEq, Eq, Structural)]
pub struct Rid {
    pub page_id: PageId,
    pub slot_num: usize,
}

impl Rid {
    pub fn new(page_id: PageId, slot_num: usize) -> (r: Rid)
        ensures
            r.page_id == page_id,
            r.slot_num == slot_num,
    {
        Rid { page_id, slot_num }
    }

    pub fn page_id(&self) -> (r: PageId)
        ensures
            r == self.page_id,
    {
        self.page_id
    }

    pub fn slot_num(&self) -> (r: usize)
        ensures
            r == self.slot_num,
    {
        self.slot_num
    }
}

impl Default for Rid {
    /// The identifier of no record.
    fn default() -> (r: Rid)
        ensures
            r.page_id == INVALID_PAGE_ID,
            r.slot_num == 0,
    {
        Rid { page_id: INVALID_PAGE_ID, slot_num: 0 }
    }
}

} // verus!
