use vstd::prelude::*;

verus! {

/// A zone of physical frames: the first frame number, how many frames it
/// spans and how many of them are free.
pub struct ZoneInfo {
    pub base_pfn: usize,
    pub page_count: usize,
    pub free_count: usize,
}

impl ZoneInfo {
    /// A zone of `page_count` frames from `base_pfn`, all free.
    pub fn new(base_pfn: usize, page_count: usize) -> (r: Self)
        ensures
            r == (ZoneInfo { base_pfn, page_count, free_count: page_count }),
    {
        ZoneInfo { base_pfn, page_count, free_count: page_count }
    }

    /// Whether the zone still has a free frame to give.
    pub fn zone_can_alloc(&self) -> (r: bool)
        ensures
            r == (self.free_count > 0),
    {
        self.free_count > 0
    }
}

} // verus!
