//! Physical memory frames and the allocator interface.
use vstd::prelude::*;
use crate::PhysicalAddress;

verus! {

/// The size, in bytes, of a virtual memory page and of a physical frame.
pub const PAGE_SIZE: u64 = 4096;

/// Frame numbers whose start address fits the address bits of a table entry
/// lie below this bound.
pub const MAX_FRAME_NUMBER: u64 = 0x100_0000_0000;

/// A physical memory frame of `PAGE_SIZE` bytes, identified by its index.
#[derive(Debug, PartialEq, Eq, Structural, PartialOrd, Ord)]
pub struct Frame {
    pub number: u64,
}

impl Frame {
    /// The frame that contains the physical address `address`.
    pub fn containing_address(address: PhysicalAddress) -> (r: Frame)
        ensures
            r.number == address / 4096,
            r.number * 4096 <= address < r.number * 4096 + 4096,
    {
        Frame { number: address / PAGE_SIZE }
    }

    /// The first physical address of the frame.
    pub fn start_address(&self) -> (r: PhysicalAddress)
        requires
            self.number * 4096 <= u64::MAX,
        ensures
            r == self.number * 4096,
    {
        self.number * PAGE_SIZE
    }
}

/// A source of free physical frames.
///
/// `floor` is a bound below which the allocator hands out nothing any more:
/// every frame it returns lies at or above the floor at the time of the call,
/// and the floor then moves past it. Frames below the floor can therefore be
/// owned by their users without fear of being handed out a second time.
pub trait FrameAllocator {
    /// The allocator's internal consistency.
    spec fn inv(&self) -> bool;

    /// No frame below this number will be handed out again.
    spec fn floor(&self) -> nat;

    /// The frame that the `i`-th next call of `allocate_frame` hands out,
    /// counting from zero; `None` once the allocator is exhausted by then.
    spec fn nth_frame(&self, i: nat) -> Option<Frame>;

    /// Every frame still to be handed out lies at or above the floor.
    proof fn lemma_frames_above_floor(&self)
        requires
            self.inv(),
        ensures
            forall|i: nat|
                #[trigger] self.nth_frame(i) is Some ==> self.nth_frame(i)->0.number >= self.floor(),
    ;

    /// Hands out a free frame, or `None` when physical memory is exhausted.
    fn allocate_frame(&mut self) -> (r: Option<Frame>)
        requires
            old(self).inv(),
        ensures
            final(self).inv(),
            final(self).floor() >= old(self).floor(),
            r == old(self).nth_frame(0),
            r is Some ==> forall|i: nat| #[trigger] final(self).nth_frame(i) == old(self).nth_frame(i + 1),
            r is None ==> forall|i: nat| #[trigger] final(self).nth_frame(i) is None,
            r matches Some(f) ==> old(self).floor() <= f.number < final(self).floor(),
            r matches Some(f) ==> f.number < MAX_FRAME_NUMBER,
    ;

    /// Takes a frame back. Frames are not recycled: the floor never moves down.
    fn deallocate_frame(&mut self, frame: Frame)
        requires
            old(self).inv(),
        ensures
            final(self).inv(),
            final(self).floor() >= old(self).floor(),
            forall|i: nat| #[trigger] final(self).nth_frame(i) == old(self).nth_frame(i),
    ;
}

} // verus!
