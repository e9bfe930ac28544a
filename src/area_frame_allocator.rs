//! A bump allocator of physical frames over the boot memory map.
use vstd::prelude::*;
use crate::frame::{Frame, FrameAllocator, MAX_FRAME_NUMBER, PAGE_SIZE};
use vstd::arithmetic::div_mod::lemma_div_is_ordered;

verus! {

/// A region of usable physical memory, as the boot loader reports it.
#[derive(Clone, Copy, Debug, PartialEq, Eq, Structural)]
pub struct MemoryArea {
    pub base_addr: u64,
    pub length: u64,
}

/// The first frame that lies wholly inside the area.
pub open spec fn area_first(a: MemoryArea) -> int {
    (a.base_addr + 4095) / 4096
}

/// The first frame past the area's last whole frame.
pub open spec fn area_end(a: MemoryArea) -> int {
    (a.base_addr + a.length) / 4096
}

/// Frame `f` shares at least one byte with the addresses `[start, end)`.
pub open spec fn overlaps(f: int, start: int, end: int) -> bool {
    f * 4096 < end && start < f * 4096 + 4096
}

/// Frame `f` lies wholly inside one of the areas.
pub open spec fn in_some_area(areas: Seq<MemoryArea>, f: int) -> bool {
    exists|i: int| 0 <= i < areas.len() && area_first(#[trigger] areas[i]) <= f < area_end(areas[i])
}

/// The areas are sorted by base address, do not overlap, and end below
/// the 52-bit physical address limit.
pub open spec fn areas_well_formed(areas: Seq<MemoryArea>) -> bool {
    &&& forall|i: int|
        0 <= i < areas.len() ==> #[trigger] areas[i].base_addr + areas[i].length
            <= 0x10_0000_0000_0000
    &&& forall|i: int, j: int|
        0 <= i < j < areas.len() ==> #[trigger] areas[i].base_addr + areas[i].length
            <= #[trigger] areas[j].base_addr
}

/// A frame below the end of one area lies below the first frame of every
/// later area.
pub proof fn lemma_later_areas(areas: Seq<MemoryArea>, i: int, j: int, g: int)
    requires
        areas_well_formed(areas),
        0 <= i < j < areas.len(),
        g < area_end(areas[i]),
    ensures
        g < area_first(areas[j]),
{
    let a = areas[i];
    let b = areas[j];
    lemma_div_is_ordered(a.base_addr + a.length, b.base_addr + 4095, 4096);
}

/// A frame below the first frame past `[_, e)` starts below `e`.
pub proof fn lemma_below_frame_after(g: int, e: int)
    requires
        0 <= g < (e + 4095) / 4096,
        0 <= e,
    ensures
        g * 4096 < e,
{
    assert(g * 4096 < e) by (nonlinear_arith)
        requires
            0 <= g < (e + 4095) / 4096,
            0 <= e,
    ;
}

/// The areas are sorted, disjoint and end below the 52-bit physical
/// address limit, as `AreaFrameAllocator::new` requires.
pub fn areas_in_order(areas: &Vec<MemoryArea>) -> (r: bool)
    ensures
        r == areas_well_formed(areas@),
{
    let mut i: usize = 0;
    while i < areas.len()
        invariant
            i <= areas@.len(),
            forall|j: int| 0 <= j < i ==> #[trigger] areas@[j].base_addr + areas@[j].length
                <= 0x10_0000_0000_0000,
            forall|j: int, k: int|
                0 <= j < k < i ==> #[trigger] areas@[j].base_addr + areas@[j].length
                    <= #[trigger] areas@[k].base_addr,
        decreases areas@.len() - i,
    {
        let a = areas[i];
        if a.length > 0x10_0000_0000_0000 || a.base_addr > 0x10_0000_0000_0000 - a.length {
            assert(areas@[i as int].base_addr + areas@[i as int].length > 0x10_0000_0000_0000);
            return false;
        }
        if i > 0 {
            let b = areas[i - 1];
            if b.base_addr + b.length > a.base_addr {
                assert(areas@[i - 1].base_addr + areas@[i - 1].length > areas@[i as int].base_addr);
                return false;
            }
            assert forall|j: int| 0 <= j < i implies areas@[j].base_addr + areas@[j].length
                <= #[trigger] areas@[i as int].base_addr by {
                if j < i - 1 {
                    assert(areas@[j].base_addr + areas@[j].length <= areas@[i - 1].base_addr);
                }
            }
        }
        i = i + 1;
    }
    true
}

/// Hands out, in ascending order, the frames that lie wholly inside the
/// usable memory areas and overlap neither the kernel image nor the boot
/// information structure.
pub struct AreaFrameAllocator {
    next_free_frame: Frame,
    current_area: usize,
    areas: Vec<MemoryArea>,
    kernel_start: u64,
    kernel_end: u64,
    multiboot_start: u64,
    multiboot_end: u64,
}

impl AreaFrameAllocator {
    /// The usable memory areas.
    pub closed spec fn areas(&self) -> Seq<MemoryArea> {
        self.areas@
    }

    /// The addresses `[start, end)` of the kernel image.
    pub closed spec fn kernel_range(&self) -> (int, int) {
        (self.kernel_start as int, self.kernel_end as int)
    }

    /// The addresses `[start, end)` of the boot information structure.
    pub closed spec fn boot_info_range(&self) -> (int, int) {
        (self.multiboot_start as int, self.multiboot_end as int)
    }

    /// Frame `f` may be handed out: it lies in an area and outside both
    /// excluded address ranges.
    pub open spec fn usable(&self, f: int) -> bool {
        &&& in_some_area(self.areas(), f)
        &&& !overlaps(f, self.kernel_range().0, self.kernel_range().1)
        &&& !overlaps(f, self.boot_info_range().0, self.boot_info_range().1)
    }

    /// The lowest frame number not yet passed over.
    pub closed spec fn cursor(&self) -> nat {
        self.next_free_frame.number as nat
    }

    /// No usable frame is left at or above the cursor.
    pub open spec fn exhausted(&self) -> bool {
        forall|g: int| g >= self.cursor() ==> !#[trigger] self.usable(g)
    }

    /// Frame `g` is the least usable frame at or above `c`.
    pub open spec fn is_least_from(&self, c: int, g: int) -> bool {
        &&& g >= c
        &&& self.usable(g)
        &&& forall|h: int| c <= h < g ==> !#[trigger] self.usable(h)
    }

    /// The `i`-th usable frame at or above `c`, counting from zero.
    pub open spec fn nth_usable(&self, c: int, i: nat) -> Option<int>
        decreases i,
    {
        if exists|g: int| self.is_least_from(c, g) {
            let f = choose|g: int| self.is_least_from(c, g);
            if i == 0 {
                Some(f)
            } else {
                self.nth_usable(f + 1, (i - 1) as nat)
            }
        } else {
            None
        }
    }

    /// The usable frames at or above `c` are usable, lie at or above `c`,
    /// and have frame numbers that fit an entry.
    pub proof fn lemma_nth_usable(&self, c: int, i: nat)
        requires
            areas_well_formed(self.areas()),
        ensures
            self.nth_usable(c, i) matches Some(g) ==> g >= c && self.usable(g) && g
                < MAX_FRAME_NUMBER,
        decreases i,
    {
        if exists|g: int| self.is_least_from(c, g) {
            let f = choose|g: int| self.is_least_from(c, g);
            if i > 0 {
                self.lemma_nth_usable(f + 1, (i - 1) as nat);
            } else {
                let k = choose|k: int|
                    0 <= k < self.areas().len() && area_first(#[trigger] self.areas()[k]) <= f
                        < area_end(self.areas()[k]);
                let a = self.areas()[k];
                vstd::arithmetic::div_mod::lemma_div_is_ordered(
                    a.base_addr + a.length,
                    0x10_0000_0000_0000,
                    4096,
                );
            }
        }
    }

    /// The lowest frame number not yet passed over.
    pub fn next_free(&self) -> (r: u64)
        ensures
            r == self.cursor(),
    {
        self.next_free_frame.number
    }

    /// Once exhausted, an allocator stays exhausted: its memory does not
    /// change and its cursor does not move down.
    pub proof fn lemma_exhaustion_persists(&self, later: &AreaFrameAllocator)
        requires
            self.exhausted(),
            later.same_memory(self),
            later.cursor() >= self.cursor(),
        ensures
            later.exhausted(),
    {
        assert forall|g: int| g >= later.cursor() implies !#[trigger] later.usable(g) by {
            assert(!self.usable(g));
        }
    }

    /// The frames still to be handed out come in strictly increasing order.
    pub proof fn lemma_nth_increasing(&self, c: int, i: nat)
        requires
            areas_well_formed(self.areas()),
            self.nth_usable(c, i) is Some,
            self.nth_usable(c, i + 1) is Some,
        ensures
            self.nth_usable(c, i)->0 < self.nth_usable(c, i + 1)->0,
        decreases i,
    {
        let f = choose|g: int| self.is_least_from(c, g);
        assert(self.nth_usable(c, i + 1) == self.nth_usable(f + 1, i));
        if i == 0 {
            self.lemma_nth_usable(f + 1, 0);
        } else {
            assert(self.nth_usable(c, i) == self.nth_usable(f + 1, (i - 1) as nat));
            assert((i - 1) as nat + 1 == i);
            self.lemma_nth_increasing(f + 1, (i - 1) as nat);
        }
    }

    /// The least usable frame at or above `c` is the one that `nth_usable`
    /// names first, and the others follow it.
    pub proof fn lemma_least_is_unique(&self, c: int, f: int)
        requires
            self.is_least_from(c, f),
        ensures
            self.nth_usable(c, 0) == Some(f),
            forall|i: nat| #[trigger] self.nth_usable(c, i + 1) == self.nth_usable(f + 1, i),
    {
        let g = choose|g: int| self.is_least_from(c, g);
        if g < f {
            assert(!self.usable(g));
        } else if f < g {
            assert(!self.usable(f));
        }
        assert forall|i: nat| #[trigger] self.nth_usable(c, i + 1) == self.nth_usable(f + 1, i) by {
            assert((i + 1) as nat - 1 == i);
        }
    }

    /// Without a usable frame at or above `c`, none is named.
    pub proof fn lemma_none_usable(&self, c: int, i: nat)
        requires
            forall|g: int| g >= c ==> !#[trigger] self.usable(g),
        ensures
            self.nth_usable(c, i) is None,
    {
        assert(!exists|g: int| self.is_least_from(c, g));
    }

    /// Allocators over the same memory name the same frames.
    pub proof fn lemma_same_memory_nth(&self, other: &AreaFrameAllocator, c: int, i: nat)
        requires
            self.same_memory(other),
        ensures
            self.nth_usable(c, i) == other.nth_usable(c, i),
        decreases i,
    {
        assert forall|g: int| self.is_least_from(c, g) == other.is_least_from(c, g) by {
            assert(self.usable(g) == other.usable(g));
            if self.is_least_from(c, g) != other.is_least_from(c, g) {
                if self.is_least_from(c, g) {
                    let h = choose|h: int| c <= h < g && #[trigger] other.usable(h);
                    assert(self.usable(h) == other.usable(h));
                } else {
                    let h = choose|h: int| c <= h < g && #[trigger] self.usable(h);
                    assert(self.usable(h) == other.usable(h));
                }
            }
        }
        if exists|g: int| self.is_least_from(c, g) {
            let f = choose|g: int| self.is_least_from(c, g);
            if i > 0 {
                self.lemma_same_memory_nth(other, f + 1, (i - 1) as nat);
            }
        }
    }

    /// The two allocators hand out frames from the same memory.
    pub open spec fn same_memory(&self, other: &AreaFrameAllocator) -> bool {
        forall|f: int| #[trigger] self.usable(f) == other.usable(f)
    }

    /// An allocator over `memory_areas` that skips the kernel image
    /// `[kernel_start, kernel_end)` and the boot information structure
    /// `[multiboot_start, multiboot_end)`.
    pub fn new(
        kernel_start: u64,
        kernel_end: u64,
        multiboot_start: u64,
        multiboot_end: u64,
        memory_areas: Vec<MemoryArea>,
    ) -> (r: AreaFrameAllocator)
        requires
            areas_well_formed(memory_areas@),
        ensures
            r.inv(),
            r.cursor() == 0,
            r.areas() == memory_areas@,
            r.kernel_range() == (kernel_start as int, kernel_end as int),
            r.boot_info_range() == (multiboot_start as int, multiboot_end as int),
    {
        AreaFrameAllocator {
            next_free_frame: Frame { number: 0 },
            current_area: 0,
            areas: memory_areas,
            kernel_start,
            kernel_end,
            multiboot_start,
            multiboot_end,
        }
    }

    /// The first frame past the end of `[_, end)`.
    fn frame_after(end: u64) -> (r: u64)
        ensures
            r == (end + 4095) / 4096,
    {
        end / PAGE_SIZE + if end % PAGE_SIZE != 0 {
            1
        } else {
            0
        }
    }
}

impl FrameAllocator for AreaFrameAllocator {
    open spec fn floor(&self) -> nat {
        self.cursor()
    }

    open spec fn nth_frame(&self, i: nat) -> Option<Frame> {
        match self.nth_usable(self.cursor() as int, i) {
            Some(g) => Some(Frame { number: g as u64 }),
            None => None,
        }
    }

    proof fn lemma_frames_above_floor(&self) {
        assert forall|i: nat| #[trigger] self.nth_frame(i) is Some implies self.nth_frame(
            i,
        )->0.number >= self.floor() by {
            self.lemma_nth_usable(self.cursor() as int, i);
        }
    }

    closed spec fn inv(&self) -> bool {
        &&& areas_well_formed(self.areas@)
        &&& self.current_area <= self.areas@.len()
        &&& self.next_free_frame.number <= 0x20_0000_0000_0000
        &&& forall|i: int|
            0 <= i < self.current_area ==> area_end(#[trigger] self.areas@[i])
                <= self.next_free_frame.number || area_end(self.areas@[i]) <= area_first(
                self.areas@[i],
            )
    }

    /// The least usable frame at or above the cursor, which then moves past
    /// it; `None` when no usable frame is left.
    fn allocate_frame(&mut self) -> (r: Option<Frame>)
        ensures
            final(self).same_memory(old(self)),
            r matches Some(f) ==> {
                &&& old(self).usable(f.number as int)
                &&& old(self).cursor() <= f.number
                &&& forall|g: int|
                    old(self).cursor() <= g < f.number ==> !#[trigger] old(self).usable(g)
                &&& final(self).cursor() == f.number + 1
            },
            r is None ==> old(self).exhausted(),
            r is None ==> final(self).exhausted(),
    {
        let ghost start = self.next_free_frame.number;
        loop
            invariant
                self.inv(),
                self.same_memory(old(self)),
                self.areas@ == old(self).areas@,
                self.kernel_start == old(self).kernel_start,
                self.kernel_end == old(self).kernel_end,
                self.multiboot_start == old(self).multiboot_start,
                self.multiboot_end == old(self).multiboot_end,
                start == old(self).cursor(),
                start <= self.next_free_frame.number,
                forall|g: int| start <= g < self.next_free_frame.number ==> !#[trigger] self.usable(g),
            decreases self.areas@.len() - self.current_area, 0x20_0000_0000_0000
                - self.next_free_frame.number,
        {
            if self.current_area >= self.areas.len() {
                proof {
                    assert forall|g: int| g >= start implies !#[trigger] old(self).usable(g) by {
                        if g >= self.next_free_frame.number {
                            assert(!in_some_area(self.areas@, g));
                        }
                        assert(!self.usable(g));
                    }
                    old(self).lemma_exhaustion_persists(self);
                    assert forall|i: nat| #[trigger] self.nth_frame(i) is None by {
                        self.lemma_none_usable(self.cursor() as int, i);
                    }
                    assert(old(self).nth_frame(0) is None) by {
                        old(self).lemma_none_usable(old(self).cursor() as int, 0);
                    }
                }
                return None;
            }
            let area = self.areas[self.current_area];
            let first = Self::frame_after(area.base_addr);
            let end = (area.base_addr + area.length) / PAGE_SIZE;
            let cursor = self.next_free_frame.number;
            let ghost ci = self.current_area as int;
            let ghost prev = *self;
            if cursor >= end || first >= end {
                self.current_area = self.current_area + 1;
                proof {
                    assert forall|g: int|
                        start <= g < self.next_free_frame.number implies !#[trigger] self.usable(
                        g,
                    ) by {
                        assert(!prev.usable(g));
                    }
                }
            } else if cursor < first {
                self.next_free_frame = Frame { number: first };
                proof {
                    assert forall|g: int| start <= g < first implies !#[trigger] self.usable(g) by {
                        if g >= cursor {
                            assert forall|j: int| 0 <= j < self.areas@.len() implies !(area_first(
                                #[trigger] self.areas@[j],
                            ) <= g < area_end(self.areas@[j])) by {
                                if j > ci {
                                    lemma_later_areas(self.areas@, ci, j, g);
                                }
                            }
                        } else {
                            assert(!prev.usable(g));
                        }
                    }
                }
            } else if cursor * PAGE_SIZE < self.kernel_end && self.kernel_start < cursor * PAGE_SIZE
                + PAGE_SIZE {
                self.next_free_frame = Frame { number: Self::frame_after(self.kernel_end) };
                proof {
                    assert forall|g: int|
                        start <= g < self.next_free_frame.number implies !#[trigger] self.usable(
                        g,
                    ) by {
                        if g >= cursor {
                            lemma_below_frame_after(g, self.kernel_end as int);
                        } else {
                            assert(!prev.usable(g));
                        }
                    }
                }
            } else if cursor * PAGE_SIZE < self.multiboot_end && self.multiboot_start < cursor
                * PAGE_SIZE + PAGE_SIZE {
                self.next_free_frame = Frame { number: Self::frame_after(self.multiboot_end) };
                proof {
                    assert forall|g: int|
                        start <= g < self.next_free_frame.number implies !#[trigger] self.usable(
                        g,
                    ) by {
                        if g >= cursor {
                            lemma_below_frame_after(g, self.multiboot_end as int);
                        } else {
                            assert(!prev.usable(g));
                        }
                    }
                }
            } else {
                self.next_free_frame = Frame { number: cursor + 1 };
                assert(area_first(self.areas@[ci]) <= cursor < area_end(self.areas@[ci]));
                assert(self.usable(cursor as int));
                assert(old(self).usable(cursor as int));
                assert forall|g: int| start <= g < cursor implies !#[trigger] old(self).usable(g) by {
                    assert(!prev.usable(g));
                }
                proof {
                    old(self).lemma_least_is_unique(start as int, cursor as int);
                    assert forall|i: nat| #[trigger] self.nth_frame(i) == old(self).nth_frame(
                        i + 1,
                    ) by {
                        assert(self.nth_usable(cursor + 1, i) == old(self).nth_usable(
                            cursor + 1,
                            i,
                        )) by {
                            self.lemma_same_memory_nth(old(self), cursor + 1, i);
                        }
                    }
                }
                return Some(Frame { number: cursor });
            }
        }
    }

    /// Frames are not recycled: nothing changes.
    fn deallocate_frame(&mut self, frame: Frame)
        ensures
            *final(self) == *old(self),
    {
    }
}

} // verus!
