use vstd::prelude::*;
use std::collections::VecDeque;
use crate::config::SLAB_ALIGN;

verus! {

/// A slab of fixed-size objects carved out of one backing buffer; the free
/// list holds the byte offsets of the objects not in use.
pub struct SlabEntry {
    pub data: Vec<u8>,
    pub obj_size: usize,
    pub capacity: usize,
    pub free_list: VecDeque<usize>,
    pub allocated: usize,
    pub tag: u32,
}

/// `n` rounded up to the slab alignment.
pub open spec fn slab_round(n: int) -> int {
    (n + SLAB_ALIGN - 1) / (SLAB_ALIGN as int) * (SLAB_ALIGN as int)
}

impl SlabEntry {
    /// A slab of `capacity` objects of `obj_size` bytes (rounded up to the
    /// slab alignment), all free and zeroed.
    pub fn new(obj_size: usize, capacity: usize) -> (r: Self)
        requires
            obj_size + SLAB_ALIGN - 1 <= usize::MAX,
            slab_round(obj_size as int) * capacity <= usize::MAX,
        ensures
            r.obj_size == slab_round(obj_size as int),
            r.capacity == capacity,
            r.data@ == Seq::new((r.obj_size * capacity) as nat, |i: int| 0u8),
            r.free_list@ == Seq::new(capacity as nat, |i: int| (i * r.obj_size) as usize),
            r.allocated == 0,
            r.tag == 0,
    {
        let aligned = (obj_size + (SLAB_ALIGN - 1)) / SLAB_ALIGN * SLAB_ALIGN;
        let total = aligned * capacity;
        let mut fl: VecDeque<usize> = VecDeque::new();
        let mut i: usize = 0;
        while i < capacity
            invariant
                i <= capacity,
                aligned * capacity <= usize::MAX,
                fl@ == Seq::new(i as nat, |k: int| (k * aligned) as usize),
            decreases capacity - i,
        {
            assert(i * aligned <= aligned * capacity) by (nonlinear_arith)
                requires i < capacity;
            fl.push_back(i * aligned);
            assert(fl@ =~= Seq::new((i + 1) as nat, |k: int| (k * aligned) as usize));
            i += 1;
        }
        SlabEntry { data: vec![0u8; total], obj_size: aligned, capacity, free_list: fl, allocated: 0, tag: 0 }
    }

    /// Takes the object at the front of the free list and answers its
    /// offset; zeroes its bytes when `zeroed` is false. `None` when the slab
    /// is full.
    pub fn slab_alloc(&mut self, zeroed: bool) -> (r: Option<usize>)
        requires
            old(self).free_list@.len() > 0 ==> old(self).free_list@[0] <= old(self).data@.len()
                && old(self).free_list@[0] + old(self).obj_size <= usize::MAX,
            old(self).allocated < usize::MAX,
        ensures
            final(self).obj_size == old(self).obj_size,
            final(self).capacity == old(self).capacity,
            final(self).tag == old(self).tag,
            old(self).free_list@.len() == 0 ==> r is None && final(self).data@ == old(self).data@
                && final(self).free_list@ == old(self).free_list@ && final(self).allocated == old(self).allocated,
            old(self).free_list@.len() > 0 ==> {
                let slot = old(self).free_list@[0];
                let end = if slot + old(self).obj_size > old(self).data@.len() { old(self).data@.len() as int } else { slot + old(self).obj_size };
                &&& r == Some(slot)
                &&& final(self).free_list@ == old(self).free_list@.drop_first()
                &&& final(self).allocated == old(self).allocated + 1
                &&& final(self).data@ == if zeroed { old(self).data@ } else {
                    Seq::new(old(self).data@.len(), |i: int| if slot <= i < end { 0u8 } else { old(self).data@[i] })
                }
            },
    {
        let slot = match self.free_list.pop_front() {
            Some(s) => s,
            None => return None,
        };
        let obj_end = {
            let candidate = slot + self.obj_size;
            if candidate > self.data.len() { self.data.len() } else { candidate }
        };
        let ghost d0 = self.data@;
        if !zeroed {
            let mut pos = slot;
            while pos < obj_end
                invariant
                    slot <= pos <= obj_end,
                    obj_end <= d0.len(),
                    self.data@ == Seq::new(d0.len(), |i: int| if slot <= i < pos { 0u8 } else { d0[i] }),
                    self.allocated == old(self).allocated,
                    self.obj_size == old(self).obj_size,
                    self.capacity == old(self).capacity,
                    self.tag == old(self).tag,
                    self.free_list@ == old(self).free_list@.drop_first(),
                decreases obj_end - pos,
            {
                self.data.set(pos, 0);
                pos += 1;
                assert(self.data@ =~= Seq::new(d0.len(), |i: int| if slot <= i < pos { 0u8 } else { d0[i] }));
            }
        }
        assert(zeroed ==> self.data@ =~= d0);
        self.allocated += 1;
        Some(slot)
    }

    /// Returns the object at `offset` to the free list when the offset lies
    /// in the buffer at an object boundary; otherwise does nothing.
    pub fn slab_free(&mut self, offset: usize)
        requires
            old(self).obj_size > 0,
        ensures
            final(self).data@ == old(self).data@,
            final(self).obj_size == old(self).obj_size,
            final(self).capacity == old(self).capacity,
            final(self).tag == old(self).tag,
            (offset < old(self).data@.len() && offset % old(self).obj_size == 0) ==> {
                &&& final(self).free_list@ == old(self).free_list@.push(offset)
                &&& final(self).allocated == if old(self).allocated > 0 { (old(self).allocated - 1) as usize } else { 0 }
            },
            !(offset < old(self).data@.len() && offset % old(self).obj_size == 0) ==> {
                &&& final(self).free_list@ == old(self).free_list@
                &&& final(self).allocated == old(self).allocated
            },
    {
        let valid = offset < self.data.len();
        let aligned = (offset % self.obj_size) == 0;
        if valid && aligned {
            self.free_list.push_back(offset);
            if self.allocated > 0 {
                self.allocated -= 1;
            }
        }
    }

    /// The number of objects handed out and not returned.
    pub fn slab_used(&self) -> (r: usize)
        ensures
            r == self.allocated,
    {
        self.allocated
    }

    /// The number of objects on the free list.
    pub fn slab_avail(&self) -> (r: usize)
        ensures
            r == self.free_list@.len(),
    {
        self.free_list.len()
    }

    /// Releases the buffer and the free list when no object is in use;
    /// answers the number of bytes released.
    pub fn shrink(&mut self) -> (r: usize)
        ensures
            final(self).obj_size == old(self).obj_size,
            final(self).capacity == old(self).capacity,
            final(self).tag == old(self).tag,
            final(self).allocated == old(self).allocated,
            old(self).allocated == 0 ==> final(self).data@.len() == 0 && final(self).free_list@.len() == 0
                && r == old(self).data@.len(),
            old(self).allocated != 0 ==> final(self).data@ == old(self).data@ && final(self).free_list@
                == old(self).free_list@ && r == 0,
    {
        let before = self.data.len();
        if self.allocated == 0 {
            self.data.clear();
            self.free_list.clear();
        }
        before - self.data.len()
    }

    /// The bytes of the object at `offset`, when it lies wholly in the buffer.
    pub fn obj_at(&self, offset: usize) -> (r: Option<&[u8]>)
        requires
            offset + self.obj_size <= usize::MAX,
        ensures
            offset + self.obj_size <= self.data@.len() ==> (r matches Some(b) && b@ == self.data@.subrange(
                offset as int,
                offset + self.obj_size,
            )),
            offset + self.obj_size > self.data@.len() ==> r is None,
    {
        if offset + self.obj_size <= self.data.len() {
            Some(vstd::slice::slice_subrange(self.data.as_slice(), offset, offset + self.obj_size))
        } else {
            None
        }
    }

    /// The bytes of the object at `offset` for writing, when it lies wholly
    /// in the buffer; what is written there lands in the buffer.
    pub fn obj_at_mut(&mut self, offset: usize) -> (r: Option<&mut [u8]>)
        requires
            offset + old(self).obj_size <= usize::MAX,
        ensures
            final(self).obj_size == old(self).obj_size && final(self).capacity == old(self).capacity,
            final(self).free_list == old(self).free_list && final(self).allocated == old(self).allocated
                && final(self).tag == old(self).tag,
            offset + old(self).obj_size <= old(self).data@.len() ==> {
                &&& r is Some
                &&& r.unwrap()@ == old(self).data@.subrange(offset as int, offset + old(self).obj_size)
                &&& final(self).data@ == old(self).data@.subrange(0, offset as int) + final(r.unwrap())@
                    + old(self).data@.subrange(offset + old(self).obj_size, old(self).data@.len() as int)
            },
            offset + old(self).obj_size > old(self).data@.len() ==> r is None && final(self).data@ == old(self).data@,
    {
        if offset + self.obj_size <= self.data.len() {
            let sz = self.obj_size;
            let whole = self.data.as_mut_slice();
            let (_front, rest) = whole.split_at_mut(offset);
            let (obj, _back) = rest.split_at_mut(sz);
            Some(obj)
        } else {
            None
        }
    }
}

} // verus!
