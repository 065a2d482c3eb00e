use vstd::prelude::*;

verus! {

/// Size in bytes of a physical frame and of a virtual page.
pub const FRAME_SIZE: u64 = 4096;

/// Start address of the frame or page that contains `addr`.
pub open spec fn frame_start(addr: u64) -> u64 {
    (addr - addr % 4096) as u64
}

/// Whether `addr` is the start of a frame or page.
pub open spec fn aligned(addr: u64) -> bool {
    addr % 4096 == 0
}

/// Start address of the frame or page that contains `addr`.
pub fn align_down(addr: u64) -> (r: u64)
    ensures
        r == frame_start(addr),
        aligned(r),
        r <= addr,
{
    addr - addr % FRAME_SIZE
}

/// The first frame boundary at or after `addr`, or the largest address when
/// there is none.
pub open spec fn first_boundary(addr: u64) -> u64 {
    if addr % 4096 == 0 {
        addr
    } else if addr - addr % 4096 <= u64::MAX - 4096 {
        (addr - addr % 4096 + 4096) as u64
    } else {
        u64::MAX
    }
}

/// Hands out fixed-size frames from `[start, end)`, reusing freed frames
/// before it advances its cursor.
pub struct SimpleFrameAllocator {
    next: u64,
    end: u64,
    free_list: Vec<u64>,
}

impl SimpleFrameAllocator {
    /// Frames given back and not yet handed out again, the last one first out.
    pub closed spec fn free_frames(&self) -> Seq<u64> {
        self.free_list@
    }

    /// Where the next fresh frame is taken from.
    pub closed spec fn cursor(&self) -> u64 {
        self.next
    }

    /// The end of the range.
    pub closed spec fn limit(&self) -> u64 {
        self.end
    }

    /// Every frame in the pool is frame-aligned, and so is the cursor while
    /// it is inside the range.
    pub closed spec fn wf(&self) -> bool {
        &&& forall|i: int| 0 <= i < self.free_list@.len() ==> aligned(#[trigger] self.free_list@[i])
        &&& self.next < self.end ==> aligned(self.next)
    }

    /// Whether `allocate_frame` would hand out a frame.
    pub open spec fn can_allocate(&self) -> bool {
        self.free_frames().len() > 0 || self.cursor() < self.limit()
    }

    /// The frame that `allocate_frame` would hand out.
    pub open spec fn next_frame(&self) -> u64 {
        if self.free_frames().len() > 0 {
            self.free_frames().last()
        } else {
            self.cursor()
        }
    }

    /// Whether `self` is what one successful allocation leaves of `pre`.
    pub open spec fn allocated_from(&self, pre: &Self) -> bool {
        &&& self.limit() == pre.limit()
        &&& if pre.free_frames().len() > 0 {
            self.free_frames() == pre.free_frames().drop_last() && self.cursor() == pre.cursor()
        } else {
            self.free_frames() == pre.free_frames() && self.cursor() == if pre.limit() - pre.cursor()
                > 4096 {
                (pre.cursor() + 4096) as u64
            } else {
                pre.limit()
            }
        }
    }

    /// Whether `self` and `other` are in the same state.
    pub open spec fn same(&self, other: &Self) -> bool {
        &&& self.free_frames() == other.free_frames()
        &&& self.cursor() == other.cursor()
        &&& self.limit() == other.limit()
    }

    /// An allocator of the whole frames in [`start`, `end`): the first is
    /// the first frame boundary at or after `start`.
    pub fn new(start: u64, end: u64) -> (r: Self)
        ensures
            r.wf(),
            r.free_frames() == Seq::<u64>::empty(),
            r.cursor() == first_boundary(start),
            r.limit() == end,
    {
        let rem = start % FRAME_SIZE;
        let next = if rem == 0 {
            start
        } else if start - rem <= u64::MAX - FRAME_SIZE {
            start - rem + FRAME_SIZE
        } else {
            u64::MAX
        };
        proof {
            if rem != 0 && start - rem <= u64::MAX - 4096 {
                let b = (start - rem) as u64;
                assert(b % 4096 == 0 ==> (b + 4096) % 4096 == 0) by (bit_vector)
                    requires
                        b <= 0xFFFF_FFFF_FFFF_EFFFu64,
                ;
                assert(b == start - start % 4096);
                assert((start - start % 4096) % 4096 == 0) by (bit_vector);
            }
        }
        SimpleFrameAllocator { next, end, free_list: Vec::new() }
    }

    /// Returns `frame` to the pool of frames to reuse.
    pub fn deallocate_frame(&mut self, frame: u64)
        requires
            old(self).wf(),
            aligned(frame),
        ensures
            final(self).wf(),
            final(self).free_frames() == old(self).free_frames().push(frame),
            final(self).cursor() == old(self).cursor(),
            final(self).limit() == old(self).limit(),
    {
        let ghost pre = self.free_list@;
        self.free_list.push(frame);
        assert forall|i: int| 0 <= i < self.free_list@.len() implies aligned(
            #[trigger] self.free_list@[i],
        ) by {
            if i < pre.len() {
                assert(self.free_list@[i] == pre[i]);
            }
        }
    }

    /// A frame, the most recently freed one if any; `None` once the range
    /// is used up and no frame was freed.
    pub fn allocate_frame(&mut self) -> (r: Option<u64>)
        requires
            old(self).wf(),
        ensures
            final(self).wf(),
            match r {
                Some(f) => old(self).can_allocate() && f == old(self).next_frame() && aligned(f)
                    && final(self).allocated_from(old(self)),
                None => !old(self).can_allocate() && final(self).same(old(self)),
            },
    {
        let ghost pre = self.free_list@;
        if let Some(addr) = self.free_list.pop() {
            assert(pre[pre.len() - 1] == addr);
            assert forall|i: int| 0 <= i < self.free_list@.len() implies aligned(
                #[trigger] self.free_list@[i],
            ) by {
                assert(self.free_list@[i] == pre[i]);
            }
            Some(addr)
        } else if self.next < self.end {
            let frame = self.next;
            proof {
                let f = frame;
                assert(f % 4096 == 0 && f <= 0xFFFF_FFFF_FFFF_EFFFu64 ==> (f + 4096) % 4096 == 0)
                    by (bit_vector);
            }
            if self.end - self.next > FRAME_SIZE {
                self.next = self.next + FRAME_SIZE;
            } else {
                self.next = self.end;
            }
            Some(frame)
        } else {
            None
        }
    }
}

} // verus!
