//! The four-level page-table hierarchy and its recursive top-level handle.
//!
//! Physical memory that holds page tables is modelled as an arena keyed by
//! frame number: the table stored in frame `f` is reached by that number,
//! which is what the recursive slot of the level-4 table gives the hardware.
//! A frame that holds no stored table reads as an all-zero table.
use vstd::prelude::*;
use std::collections::HashMap;
use crate::{PhysicalAddress, VirtualAddress};
use crate::frame::{Frame, FrameAllocator, MAX_FRAME_NUMBER, PAGE_SIZE};
use crate::entry::{
    Entry, EntryFlags, entry_present, entry_huge, entry_frame, encode_entry, lemma_encode_entry,
    HUGE_PAGE, WRITEABLE,
};
use crate::page::{Page, is_canonical, table_index};

verus! {

broadcast use vstd::std_specs::hash::group_hash_axioms;

/// The number of entries of a table.
pub const ENTRY_COUNT: u64 = 512;

/// The slot of the level-4 table that points back at the table itself.
pub const RECURSIVE_INDEX: u64 = 511;

/// Why a mapping could not be made.
#[derive(Debug, PartialEq, Eq, Structural)]
pub enum MapError {
    /// The allocator had no frame left for the page or for a table.
    OutOfFrames,
}

/// Entry words keep their address bits below bit 52.
pub proof fn lemma_entry_frame_bound(e: u64)
    ensures
        entry_frame(e) < 0x100_0000_0000,
{
    assert((e & 0x000f_ffff_ffff_f000) >> 12 < 0x100_0000_0000) by (bit_vector);
}

/// The unused entry is neither present nor huge.
pub proof fn lemma_unused_entry()
    ensures
        !entry_present(0),
        !entry_huge(0),
{
    assert(0u64 & 1 != 1) by (bit_vector);
    assert(0u64 & 0x80 != 0x80) by (bit_vector);
}

/// The entry that links a table in frame `c` below its parent is present,
/// names `c`, and maps no huge page.
pub proof fn lemma_table_entry_encoding(c: u64)
    requires
        c < MAX_FRAME_NUMBER,
    ensures
        entry_present(encode_entry(c, WRITEABLE)),
        !entry_huge(encode_entry(c, WRITEABLE)),
        entry_frame(encode_entry(c, WRITEABLE)) == c,
{
    assert(0x2u64 & !0x8000_0000_0000_01ffu64 == 0) by (bit_vector);
    assert(0x2u64 & 0x80 != 0x80) by (bit_vector);
    lemma_encode_entry(c, WRITEABLE);
}

/// A handle on the page-table hierarchy whose level-4 table maps itself in
/// its last slot.
pub struct RecusivePageTable {
    p4: u64,
    tables: HashMap<u64, Vec<u64>>,
}

impl RecusivePageTable {
    /// The frame of the level-4 table.
    pub closed spec fn root(&self) -> u64 {
        self.p4
    }

    /// Entry `i` of the table held in frame `f`.
    pub closed spec fn entry_at(&self, f: u64, i: u64) -> u64 {
        if self.tables@.contains_key(f) && i < self.tables@[f]@.len() {
            self.tables@[f]@[i as int]
        } else {
            0
        }
    }

    /// Every stored table has 512 entries, and the level-4 table's frame can
    /// be written into an entry.
    pub closed spec fn wf(&self) -> bool {
        &&& self.p4 < MAX_FRAME_NUMBER
        &&& self.tables@.contains_key(self.p4)
        &&& forall|f: u64| #[trigger] self.tables@.contains_key(f) ==> self.tables@[f]@.len() == 512
    }

    /// Frame `f` holds a table of this hierarchy.
    pub closed spec fn holds_table(&self, f: u64) -> bool {
        self.tables@.contains_key(f)
    }

    /// The allocator never hands out a frame that holds a table.
    pub open spec fn fresh_for<A: FrameAllocator>(&self, a: &A) -> bool {
        forall|i: nat|
            #[trigger] a.nth_frame(i) is Some ==> !self.holds_table(a.nth_frame(i)->0.number)
    }

    /// The two hierarchies hold the same entries.
    pub open spec fn same_entries(&self, other: &RecusivePageTable) -> bool {
        &&& self.root() == other.root()
        &&& forall|f: u64, i: u64| i < 512 ==> #[trigger] self.entry_at(f, i) == other.entry_at(f, i)
    }

    /// The frame of the table below entry `i` of the table in frame `f`:
    /// present when the entry is present and maps no huge page.
    pub open spec fn next_table_spec(&self, f: u64, i: u64) -> Option<u64> {
        let e = self.entry_at(f, i);
        if entry_present(e) && !entry_huge(e) {
            Some(entry_frame(e))
        } else {
            None
        }
    }

    /// The frames of the level-3, level-2 and level-1 tables on the way to
    /// page number `n`, as far as they are present.
    pub open spec fn p3_of(&self, n: u64) -> Option<u64> {
        self.next_table_spec(self.root(), table_index(n, 4))
    }

    pub open spec fn p2_of(&self, n: u64) -> Option<u64> {
        match self.p3_of(n) {
            Some(f3) => self.next_table_spec(f3, table_index(n, 3)),
            None => None,
        }
    }

    pub open spec fn p1_of(&self, n: u64) -> Option<u64> {
        match self.p2_of(n) {
            Some(f2) => self.next_table_spec(f2, table_index(n, 2)),
            None => None,
        }
    }

    /// The frame that page number `n` maps to through a level-1 entry.
    pub open spec fn walk_small(&self, n: u64) -> Option<u64> {
        match self.p1_of(n) {
            Some(f1) => {
                let e = self.entry_at(f1, table_index(n, 1));
                if entry_present(e) {
                    Some(entry_frame(e))
                } else {
                    None
                }
            },
            None => None,
        }
    }

    /// The frame that page number `n` maps to through a huge level-3 entry
    /// (1 GiB) or a huge level-2 entry (2 MiB).
    pub open spec fn walk_huge(&self, n: u64) -> Option<u64> {
        match self.p3_of(n) {
            Some(f3) => {
                let e3 = self.entry_at(f3, table_index(n, 3));
                if entry_present(e3) && entry_huge(e3) {
                    Some((entry_frame(e3) + table_index(n, 2) * 512 + table_index(n, 1)) as u64)
                } else {
                    match self.p2_of(n) {
                        Some(f2) => {
                            let e2 = self.entry_at(f2, table_index(n, 2));
                            if entry_present(e2) && entry_huge(e2) {
                                Some((entry_frame(e2) + table_index(n, 1)) as u64)
                            } else {
                                None
                            }
                        },
                        None => None,
                    }
                }
            },
            None => None,
        }
    }

    /// The frame that page number `n` maps to, if any.
    pub open spec fn translate_page_spec(&self, n: u64) -> Option<u64> {
        match self.walk_small(n) {
            Some(f) => Some(f),
            None => self.walk_huge(n),
        }
    }

    /// The physical address that the virtual address `a` maps to, if any.
    pub open spec fn translate_spec(&self, a: u64) -> Option<u64> {
        match self.translate_page_spec(a / 4096) {
            Some(f) => Some((f * 4096 + a % 4096) as u64),
            None => None,
        }
    }

    /// A huge entry that translation of page number `n` reaches names a
    /// frame aligned to the huge page's size.
    pub open spec fn huge_aligned(&self, n: u64) -> bool {
        self.walk_small(n) is None ==> match self.p3_of(n) {
            Some(f3) => {
                let e3 = self.entry_at(f3, table_index(n, 3));
                if entry_present(e3) && entry_huge(e3) {
                    entry_frame(e3) % 0x4_0000 == 0
                } else {
                    match self.p2_of(n) {
                        Some(f2) => {
                            let e2 = self.entry_at(f2, table_index(n, 2));
                            entry_present(e2) && entry_huge(e2) ==> entry_frame(e2) % 512 == 0
                        },
                        None => true,
                    }
                }
            },
            None => true,
        }
    }

    /// No entry on the way to page number `n` is a huge one.
    pub open spec fn no_huge_on_path(&self, n: u64) -> bool {
        &&& !entry_huge(self.entry_at(self.root(), table_index(n, 4))) || !entry_present(
            self.entry_at(self.root(), table_index(n, 4)),
        )
        &&& self.p3_of(n) matches Some(f3) ==> {
            let e = self.entry_at(f3, table_index(n, 3));
            !(entry_present(e) && entry_huge(e))
        }
        &&& self.p2_of(n) matches Some(f2) ==> {
            let e = self.entry_at(f2, table_index(n, 2));
            !(entry_present(e) && entry_huge(e))
        }
    }

    /// The level-1 slot of page number `n` is unused or not yet created.
    pub open spec fn slot_unused(&self, n: u64) -> bool {
        self.p1_of(n) matches Some(f1) ==> self.entry_at(f1, table_index(n, 1)) == 0
    }

    /// The tables on the way to page number `n` are tables of this
    /// hierarchy.
    pub open spec fn path_stored(&self, n: u64) -> bool {
        &&& self.holds_table(self.root())
        &&& self.p3_of(n) matches Some(f) ==> self.holds_table(f)
        &&& self.p2_of(n) matches Some(f) ==> self.holds_table(f)
        &&& self.p1_of(n) matches Some(f) ==> self.holds_table(f)
    }

    /// How many of the level-3, level-2 and level-1 tables on the way to
    /// page number `n` are absent.
    pub open spec fn missing_tables(&self, n: u64) -> nat {
        if self.p3_of(n) is None {
            3
        } else if self.p2_of(n) is None {
            2
        } else if self.p1_of(n) is None {
            1
        } else {
            0
        }
    }

    /// A hierarchy of one level-4 table, held in frame `p4`, whose entries
    /// are all unused but the recursive one, which points at the table itself.
    pub fn new(p4: Frame) -> (r: RecusivePageTable)
        requires
            p4.number < MAX_FRAME_NUMBER,
        ensures
            r.wf(),
            r.root() == p4.number,
            forall|g: u64| #[trigger] r.holds_table(g) == (g == p4.number),
            forall|f: u64, i: u64|
                i < 512 ==> #[trigger] r.entry_at(f, i) == if f == p4.number && i == RECURSIVE_INDEX {
                    encode_entry(p4.number, WRITEABLE)
                } else {
                    0
                },
    {
        let n = p4.number;
        let mut tables: HashMap<u64, Vec<u64>> = HashMap::new();
        tables.insert(n, Self::zeroed());
        let mut pt = RecusivePageTable { p4: n, tables };
        let mut e = Entry::new();
        assert(0x2u64 & 0x8000_0000_0000_01ffu64 == 0x2u64) by (bit_vector);
        e.set(p4, EntryFlags::from_bits_truncate(WRITEABLE));
        pt.write_slot(n, RECURSIVE_INDEX, e.0);
        pt
    }

    /// Stores an all-zero table in frame `f`.
    fn zero_table(&mut self, f: u64)
        requires
            old(self).wf(),
        ensures
            final(self).wf(),
            final(self).root() == old(self).root(),
            forall|g: u64, i: u64|
                i < 512 ==> #[trigger] final(self).entry_at(g, i) == if g == f {
                    0
                } else {
                    old(self).entry_at(g, i)
                },
            forall|g: u64| #[trigger] final(self).holds_table(g) == (old(self).holds_table(g) || g == f),
    {
        let t = Self::zeroed();
        self.tables.insert(f, t);
    }

    /// The contents of a fresh table.
    fn zeroed() -> (t: Vec<u64>)
        ensures
            t@.len() == 512,
            forall|j: int| 0 <= j < 512 ==> t@[j] == 0,
    {
        let mut t: Vec<u64> = Vec::new();
        while t.len() < 512
            invariant
                t.len() <= 512,
                forall|j: int| 0 <= j < t.len() ==> t@[j] == 0,
            decreases 512 - t.len(),
        {
            t.push(0);
        }
        t
    }

    /// Writes `v` into entry `i` of the table in frame `f`.
    fn write_slot(&mut self, f: u64, i: u64, v: u64)
        requires
            old(self).wf(),
            i < 512,
        ensures
            final(self).wf(),
            final(self).root() == old(self).root(),
            forall|g: u64, j: u64|
                j < 512 ==> #[trigger] final(self).entry_at(g, j) == if g == f && j == i {
                    v
                } else {
                    old(self).entry_at(g, j)
                },
            forall|g: u64| #[trigger] final(self).holds_table(g) == (old(self).holds_table(g) || g == f),
    {
        let mut t = match self.tables.remove(&f) {
            Some(t) => t,
            None => Self::zeroed(),
        };
        t.set(i as usize, v);
        self.tables.insert(f, t);
    }

    /// Entry `i` of the table in frame `f`.
    fn read_slot(&self, f: u64, i: u64) -> (r: u64)
        requires
            self.wf(),
            i < 512,
        ensures
            r == self.entry_at(f, i),
    {
        match self.tables.get(&f) {
            Some(t) => t[i as usize],
            None => 0,
        }
    }

    /// The entry at `index` of the table held in `frame`.
    pub fn table_entry(&self, frame: &Frame, index: u64) -> (r: Entry)
        requires
            self.wf(),
            index < 512,
        ensures
            r.0 == self.entry_at(frame.number, index),
    {
        Entry(self.read_slot(frame.number, index))
    }

    /// Overwrites the entry at `index` of the table held in `frame`, as a
    /// boot loader does when it hands over a prepared hierarchy.
    pub fn set_table_entry(&mut self, frame: &Frame, index: u64, entry: Entry)
        requires
            old(self).wf(),
            index < 512,
        ensures
            final(self).wf(),
            final(self).root() == old(self).root(),
            forall|g: u64, j: u64|
                j < 512 ==> #[trigger] final(self).entry_at(g, j) == if g == frame.number && j
                    == index {
                    entry.0
                } else {
                    old(self).entry_at(g, j)
                },
            forall|g: u64| #[trigger] final(self).holds_table(g) == (old(self).holds_table(g) || g
                == frame.number),
    {
        self.write_slot(frame.number, index, entry.0);
    }

    /// The entry word maps a huge page.
    fn is_huge(e: &Entry) -> (r: bool)
        ensures
            r == entry_huge(e.0),
    {
        let w = e.0;
        assert(((w & 0x8000_0000_0000_01ffu64) & (0x80u64 & 0x8000_0000_0000_01ffu64) == (0x80u64
            & 0x8000_0000_0000_01ffu64)) == (w & 0x80 == 0x80)) by (bit_vector);
        e.flags().contains(EntryFlags::from_bits_truncate(HUGE_PAGE))
    }

    /// The frame of the table below entry `i` of the table in frame `f`.
    fn next_table(&self, f: u64, i: u64) -> (r: Option<u64>)
        requires
            self.wf(),
            i < 512,
        ensures
            r == self.next_table_spec(f, i),
    {
        let e = Entry(self.read_slot(f, i));
        match e.pointed_frame() {
            Some(c) => {
                if Self::is_huge(&e) {
                    None
                } else {
                    Some(c.number)
                }
            },
            None => None,
        }
    }
    /// The frame that `page` maps to: through the four levels, or else
    /// through a huge level-3 or level-2 entry.
    fn translate_page(&self, page: Page) -> (r: Option<Frame>)
        requires
            self.wf(),
            self.huge_aligned(page@),
        ensures
            r == (match self.translate_page_spec(page@) {
                Some(n) => Some(Frame { number: n }),
                None => None,
            }),
    {
        let i4 = page.p4_index();
        let i3 = page.p3_index();
        let i2 = page.p2_index();
        let i1 = page.p1_index();
        let f3 = match self.next_table(self.p4, i4) {
            Some(f3) => f3,
            None => return None,
        };
        let p2 = self.next_table(f3, i3);
        if let Some(f2) = p2 {
            if let Some(f1) = self.next_table(f2, i2) {
                let e1 = Entry(self.read_slot(f1, i1));
                if let Some(frame) = e1.pointed_frame() {
                    return Some(frame);
                }
            }
        }
        let e3 = Entry(self.read_slot(f3, i3));
        if let Some(start) = e3.pointed_frame() {
            if Self::is_huge(&e3) {
                // a 1 GiB page, aligned to 512 * 512 frames
                proof {
                    lemma_entry_frame_bound(e3.0);
                }
                return Some(Frame { number: start.number + i2 * ENTRY_COUNT + i1 });
            }
        }
        if let Some(f2) = p2 {
            let e2 = Entry(self.read_slot(f2, i2));
            if let Some(start) = e2.pointed_frame() {
                if Self::is_huge(&e2) {
                    // a 2 MiB page, aligned to 512 frames
                    proof {
                        lemma_entry_frame_bound(e2.0);
                    }
                    return Some(Frame { number: start.number + i1 });
                }
            }
        }
        None
    }

    /// The physical address that `virtual_address` maps to, if any.
    pub fn translate(&self, virtual_address: VirtualAddress) -> (r: Option<PhysicalAddress>)
        requires
            self.wf(),
            is_canonical(virtual_address),
            self.huge_aligned(virtual_address / 4096),
        ensures
            r == self.translate_spec(virtual_address),
    {
        let offset = virtual_address % PAGE_SIZE;
        let page = Page::containing_address(virtual_address);
        match self.translate_page(page) {
            Some(frame) => {
                proof {
                    self.lemma_translate_page_bound(virtual_address / 4096);
                }
                Some(frame.number * PAGE_SIZE + offset)
            },
            None => None,
        }
    }


    /// The frame of the table below entry `i` of the table in frame `f`,
    /// created when absent: the frame `allocator` hands out next, zeroed and
    /// installed as PRESENT | WRITEABLE. `None` when the allocator is
    /// exhausted.
    fn next_table_create<A: FrameAllocator>(&mut self, f: u64, i: u64, allocator: &mut A) -> (r:
        Option<u64>)
        requires
            old(self).wf(),
            old(allocator).inv(),
            i < 512,
            old(self).holds_table(f),
            old(self).fresh_for(old(allocator)),
            !(entry_present(old(self).entry_at(f, i)) && entry_huge(old(self).entry_at(f, i))),
        ensures
            final(self).wf(),
            final(allocator).inv(),
            final(allocator).floor() >= old(allocator).floor(),
            final(self).root() == old(self).root(),
            final(self).fresh_for(final(allocator)),
            old(self).next_table_spec(f, i) is Some ==> {
                &&& r == old(self).next_table_spec(f, i)
                &&& *final(self) == *old(self)
                &&& *final(allocator) == *old(allocator)
            },
            old(self).next_table_spec(f, i) is None ==> (r is None <==> old(
                allocator,
            ).nth_frame(0) is None),
            r is None ==> *final(self) == *old(self),
            r is None ==> forall|k: nat| #[trigger] final(allocator).nth_frame(k) is None,
            old(self).next_table_spec(f, i) is None ==> match r {
                Some(c) => {
                    &&& old(allocator).nth_frame(0) == Some(Frame { number: c })
                    &&& forall|k: nat| #[trigger] final(allocator).nth_frame(k) == old(
                        allocator,
                    ).nth_frame(k + 1)
                    &&& !old(self).holds_table(c)
                    &&& forall|g: u64| #[trigger] final(self).holds_table(g) == (old(
                        self,
                    ).holds_table(g) || g == c)
                    &&& final(self).next_table_spec(f, i) == Some(c)
                    &&& forall|g: u64, j: u64|
                        j < 512 ==> #[trigger] final(self).entry_at(g, j) == if g == f && j == i {
                            encode_entry(c, WRITEABLE)
                        } else {
                            old(self).entry_at(g, j)
                        }
                },
                None => true,
            },
    {
        if let Some(c) = self.next_table(f, i) {
            return Some(c);
        }
        let ghost a0 = *allocator;
        let frame = match allocator.allocate_frame() {
            Some(frame) => frame,
            None => return None,
        };
        let c = frame.number;
        let ghost s0 = *old(self);
        proof {
            allocator.lemma_frames_above_floor();
            assert(a0.nth_frame(0) is Some);
            assert(!s0.holds_table(c));
            assert forall|k: nat| #[trigger] allocator.nth_frame(k) is Some implies !s0.holds_table(
                allocator.nth_frame(k)->0.number,
            ) && allocator.nth_frame(k)->0.number != c by {
                assert(allocator.nth_frame(k) == a0.nth_frame(k + 1));
            }
        }
        self.zero_table(c);
        let mut e = Entry::new();
        assert(0x2u64 & 0x8000_0000_0000_01ffu64 == 0x2u64) by (bit_vector);
        e.set(frame, EntryFlags::from_bits_truncate(WRITEABLE));
        self.write_slot(f, i, e.0);
        proof {
            lemma_table_entry_encoding(c);
        }
        Some(c)
    }

    /// Entry `j` of the table in frame `g` is one of the four entries on the
    /// way to page number `n`.
    pub open spec fn on_path(&self, n: u64, g: u64, j: u64) -> bool {
        ||| g == self.root() && j == table_index(n, 4)
        ||| self.p3_of(n) == Some(g) && j == table_index(n, 3)
        ||| self.p2_of(n) == Some(g) && j == table_index(n, 2)
        ||| self.p1_of(n) == Some(g) && j == table_index(n, 1)
    }

    /// The hierarchy differs from `prev` only in entries on the way to page
    /// number `n` that were not present in `prev`.
    pub open spec fn changed_on_path_only(&self, prev: &RecusivePageTable, n: u64) -> bool {
        &&& self.root() == prev.root()
        &&& forall|g: u64, j: u64|
            j < 512 && #[trigger] self.entry_at(g, j) != prev.entry_at(g, j) ==> self.on_path(n, g, j)
                && !entry_present(prev.entry_at(g, j))
    }

    /// The first `k` frames that `a` will hand out are there.
    pub open spec fn frames_suffice<A: FrameAllocator>(a: &A, k: nat) -> bool {
        forall|i: nat| i < k ==> #[trigger] a.nth_frame(i) is Some
    }

    /// Each table on the way to page number `n` that `prev` lacked lies in a
    /// frame that `a` handed out, in order from the level-3 table down,
    /// starting with `a`'s frame number `first`; and is linked from its
    /// parent with PRESENT | WRITEABLE.
    pub open spec fn tables_taken_from<A: FrameAllocator>(
        &self,
        prev: &RecusivePageTable,
        n: u64,
        a: &A,
        first: nat,
    ) -> bool {
        let m = prev.missing_tables(n);
        &&& (prev.p3_of(n) is None && self.p3_of(n) is Some) ==> {
            &&& a.nth_frame(first) == Some(Frame { number: self.p3_of(n)->0 })
            &&& self.entry_at(self.root(), table_index(n, 4)) == encode_entry(
                self.p3_of(n)->0,
                WRITEABLE,
            )
        }
        &&& (prev.p2_of(n) is None && self.p2_of(n) is Some) ==> {
            &&& a.nth_frame((first + m - 2) as nat) == Some(Frame { number: self.p2_of(n)->0 })
            &&& self.entry_at(self.p3_of(n)->0, table_index(n, 3)) == encode_entry(
                self.p2_of(n)->0,
                WRITEABLE,
            )
        }
        &&& (prev.p1_of(n) is None && self.p1_of(n) is Some) ==> {
            &&& a.nth_frame((first + m - 1) as nat) == Some(Frame { number: self.p1_of(n)->0 })
            &&& self.entry_at(self.p2_of(n)->0, table_index(n, 2)) == encode_entry(
                self.p1_of(n)->0,
                WRITEABLE,
            )
        }
    }

    /// The way to page number `n` can be completed by `map_to` with frames
    /// from `a`: no huge entry on it, its level-1 slot unused, its tables
    /// held by the hierarchy, and no held table among `a`'s frames.
    pub open spec fn clear_path<A: FrameAllocator>(&self, n: u64, a: &A) -> bool {
        &&& self.wf()
        &&& self.no_huge_on_path(n)
        &&& self.slot_unused(n)
        &&& self.path_stored(n)
        &&& self.fresh_for(a)
    }

    /// A page whose way has no huge entry and an unused level-1 slot maps
    /// to nothing.
    proof fn lemma_clear_path(&self, n: u64)
        requires
            self.no_huge_on_path(n),
            self.slot_unused(n),
        ensures
            self.translate_page_spec(n) is None,
            self.huge_aligned(n),
    {
        lemma_unused_entry();
    }

    /// A hierarchy changed only on the way to page number `n`, in entries
    /// that were not present, keeps every translation that existed.
    pub proof fn lemma_path_changes_keep_translations(&self, after: &RecusivePageTable, n: u64)
        requires
            after.changed_on_path_only(self, n),
        ensures
            forall|q: u64|
                #[trigger] self.translate_page_spec(q) is Some ==> after.translate_page_spec(q)
                    == self.translate_page_spec(q),
    {
        assert forall|q: u64| #[trigger]
            self.translate_page_spec(q) is Some implies after.translate_page_spec(q)
            == self.translate_page_spec(q) by {
            self.lemma_translations_kept(after, q);
        }
    }

    /// Changing only entries that were not present keeps every translation
    /// that existed.
    pub proof fn lemma_translations_kept(&self, after: &RecusivePageTable, q: u64)
        requires
            after.root() == self.root(),
            forall|g: u64, j: u64|
                j < 512 && #[trigger] after.entry_at(g, j) != self.entry_at(g, j) ==> !entry_present(
                    self.entry_at(g, j),
                ),
            self.translate_page_spec(q) is Some,
        ensures
            after.translate_page_spec(q) == self.translate_page_spec(q),
    {
        assert((q >> 27u64) & 0x1ff < 512 && (q >> 18u64) & 0x1ff < 512 && (q >> 9u64) & 0x1ff < 512
            && q & 0x1ff < 512) by (bit_vector);
        let r = self.root();
        let e4 = self.entry_at(r, table_index(q, 4));
        assert(after.entry_at(r, table_index(q, 4)) == e4);
        let f3 = self.p3_of(q)->0;
        let e3 = self.entry_at(f3, table_index(q, 3));
        assert(after.entry_at(f3, table_index(q, 3)) == e3);
        if self.p2_of(q) is Some {
            let f2 = self.p2_of(q)->0;
            assert(after.entry_at(f2, table_index(q, 2)) == self.entry_at(f2, table_index(q, 2)));
            if self.p1_of(q) is Some {
                let f1 = self.p1_of(q)->0;
                assert(after.entry_at(f1, table_index(q, 1)) == self.entry_at(
                    f1,
                    table_index(q, 1),
                ));
            }
        }
    }

    /// Maps `page` to `frame` with `flags` (PRESENT is always added),
    /// creating the missing level-3, level-2 and level-1 tables, in that
    /// order, in the frames that `allocator` hands out. Fails, changing only
    /// entries that were not present, when the allocator runs out first.
    pub fn map_to<A: FrameAllocator>(
        &mut self,
        page: Page,
        frame: Frame,
        flags: EntryFlags,
        allocator: &mut A,
    ) -> (r: Result<(), MapError>)
        requires
            old(self).clear_path(page@, old(allocator)),
            old(allocator).inv(),
            frame.number < MAX_FRAME_NUMBER,
        ensures
            final(self).wf(),
            final(allocator).inv(),
            final(allocator).floor() >= old(allocator).floor(),
            final(self).root() == old(self).root(),
            final(self).path_stored(page@),
            final(self).fresh_for(final(allocator)),
            final(self).huge_aligned(page@),
            final(self).changed_on_path_only(old(self), page@),
            forall|q: u64|
                #![trigger old(self).translate_page_spec(q)]
                old(self).translate_page_spec(q) is Some ==> (final(self).translate_page_spec(q)
                    == old(self).translate_page_spec(q)),
            final(self).tables_taken_from(old(self), page@, old(allocator), 0),
            r is Ok <==> Self::frames_suffice(old(allocator), old(self).missing_tables(page@)),
            r is Ok ==> forall|i: nat| #[trigger] final(allocator).nth_frame(i) == old(
                allocator,
            ).nth_frame(i + old(self).missing_tables(page@)),
            r is Err ==> forall|i: nat| #[trigger] final(allocator).nth_frame(i) is None,
            r is Ok ==> final(self).entry_at(
                final(self).p1_of(page@)->0,
                table_index(page@, 1),
            ) == encode_entry(frame.number, flags@),
            r is Ok ==> final(self).walk_small(page@) == Some(frame.number),
            r is Ok ==> final(self).translate_page_spec(page@) == Some(frame.number),
            r is Err ==> final(self).translate_page_spec(page@) is None,
    {
        let ghost n = page@;
        let ghost s0 = *self;
        let ghost a0 = *allocator;
        let ghost m = s0.missing_tables(n);
        proof {
            lemma_unused_entry();
            assert((n >> 27u64) & 0x1ff < 512 && (n >> 18u64) & 0x1ff < 512 && (n >> 9u64) & 0x1ff
                < 512 && n & 0x1ff < 512) by (bit_vector);
        }
        let f3 = match self.next_table_create(self.p4, page.p4_index(), allocator) {
            Some(f3) => f3,
            None => {
                proof {
                    s0.lemma_clear_path(n);
                    assert(a0.nth_frame(0) is None);
                }
                proof {
                    s0.lemma_path_changes_keep_translations(self, n);
                }
                return Err(MapError::OutOfFrames);
            },
        };
        let ghost s1 = *self;
        let ghost a1 = *allocator;
        let ghost k1: nat = if s0.p3_of(n) is None { 1 } else { 0 };
        proof {
            assert(s1.p3_of(n) == Some(f3));
            assert forall|i: nat| #[trigger] a1.nth_frame(i) == a0.nth_frame(i + k1) by {}
            if s0.p3_of(n) is None {
                assert(s1.entry_at(f3, table_index(n, 3)) == 0);
            }
        }
        let f2 = match self.next_table_create(f3, page.p3_index(), allocator) {
            Some(f2) => f2,
            None => {
                proof {
                    s1.lemma_clear_path(n);
                    assert(a1.nth_frame(0) is None);
                    assert(a0.nth_frame(k1) is None);
                }
                proof {
                    s0.lemma_path_changes_keep_translations(self, n);
                }
                return Err(MapError::OutOfFrames);
            },
        };
        let ghost s2 = *self;
        let ghost a2 = *allocator;
        let ghost k2: nat = if s1.p2_of(n) is None { k1 + 1 } else { k1 };
        proof {
            assert(s2.entry_at(s0.root(), table_index(n, 4)) == s1.entry_at(
                s0.root(),
                table_index(n, 4),
            ));
            assert(s2.p3_of(n) == Some(f3));
            assert(s2.p2_of(n) == Some(f2));
            assert forall|i: nat| #[trigger] a2.nth_frame(i) == a0.nth_frame(i + k2) by {
                if s1.p2_of(n) is None {
                    assert(a2.nth_frame(i) == a1.nth_frame(i + 1));
                    assert(a1.nth_frame(i + 1) == a0.nth_frame(i + 1 + k1));
                }
            }
            if s1.p2_of(n) is None {
                assert(s2.entry_at(f2, table_index(n, 2)) == 0);
            }
        }
        let f1 = match self.next_table_create(f2, page.p2_index(), allocator) {
            Some(f1) => f1,
            None => {
                proof {
                    s2.lemma_clear_path(n);
                    assert(a2.nth_frame(0) is None);
                    assert(a0.nth_frame(k2) is None);
                }
                proof {
                    s0.lemma_path_changes_keep_translations(self, n);
                }
                return Err(MapError::OutOfFrames);
            },
        };
        let ghost s3 = *self;
        let ghost a3 = *allocator;
        let ghost k3: nat = if s2.p1_of(n) is None { k2 + 1 } else { k2 };
        proof {
            assert(s3.entry_at(s0.root(), table_index(n, 4)) == s2.entry_at(
                s0.root(),
                table_index(n, 4),
            ));
            assert(s3.entry_at(f3, table_index(n, 3)) == s2.entry_at(f3, table_index(n, 3)));
            assert(s3.p3_of(n) == Some(f3));
            assert(s3.p2_of(n) == Some(f2));
            assert(s3.p1_of(n) == Some(f1));
            assert forall|i: nat| #[trigger] a3.nth_frame(i) == a0.nth_frame(i + k3) by {
                if s2.p1_of(n) is None {
                    assert(a3.nth_frame(i) == a2.nth_frame(i + 1));
                    assert(a2.nth_frame(i + 1) == a0.nth_frame(i + 1 + k2));
                }
            }
            assert(k3 == m);
            assert(s3.entry_at(f1, table_index(n, 1)) == 0);
        }
        let i1 = page.p1_index();
        let mut e = Entry::new();
        e.set(frame, flags);
        self.write_slot(f1, i1, e.0);
        proof {
            assert(self.entry_at(s0.root(), table_index(n, 4)) == s3.entry_at(
                s0.root(),
                table_index(n, 4),
            ));
            assert(self.entry_at(f3, table_index(n, 3)) == s3.entry_at(f3, table_index(n, 3)));
            assert(self.entry_at(f2, table_index(n, 2)) == s3.entry_at(f2, table_index(n, 2)));
            assert(self.p1_of(n) == Some(f1));
            assert(Self::frames_suffice(&a0, m)) by {
                assert forall|i: nat| i < m implies #[trigger] a0.nth_frame(i) is Some by {
                    if s0.p3_of(n) is None {
                        if i == 1 {
                            assert(a1.nth_frame(0) == a0.nth_frame(1));
                        } else if i == 2 {
                            assert(a2.nth_frame(0) == a0.nth_frame(2));
                        }
                    } else if s0.p2_of(n) is None {
                        if i == 1 {
                            assert(a2.nth_frame(0) == a0.nth_frame(1));
                        }
                    }
                }
            }
        }
        proof {
            s0.lemma_path_changes_keep_translations(self, n);
        }
        Ok(())
    }

    /// Maps `page` to the frame that `allocator` hands out next, then
    /// creates the missing tables in the frames it hands out after that.
    pub fn map<A: FrameAllocator>(&mut self, page: Page, flags: EntryFlags, allocator: &mut A) -> (r:
        Result<(), MapError>)
        requires
            old(self).clear_path(page@, old(allocator)),
            old(allocator).inv(),
        ensures
            final(self).wf(),
            final(allocator).inv(),
            final(allocator).floor() >= old(allocator).floor(),
            final(self).root() == old(self).root(),
            final(self).path_stored(page@),
            final(self).fresh_for(final(allocator)),
            final(self).huge_aligned(page@),
            final(self).changed_on_path_only(old(self), page@),
            forall|q: u64|
                #![trigger old(self).translate_page_spec(q)]
                old(self).translate_page_spec(q) is Some ==> (final(self).translate_page_spec(q)
                    == old(self).translate_page_spec(q)),
            final(self).tables_taken_from(old(self), page@, old(allocator), 1),
            r is Ok <==> Self::frames_suffice(
                old(allocator),
                old(self).missing_tables(page@) + 1,
            ),
            r is Ok ==> forall|i: nat| #[trigger] final(allocator).nth_frame(i) == old(
                allocator,
            ).nth_frame(i + old(self).missing_tables(page@) + 1),
            r is Err ==> forall|i: nat| #[trigger] final(allocator).nth_frame(i) is None,
            old(allocator).nth_frame(0) is None ==> *final(self) == *old(self),
            r is Ok ==> old(allocator).nth_frame(0) is Some,
            r is Ok ==> old(allocator).nth_frame(0)->0.number < final(allocator).floor(),
            r is Ok ==> final(self).walk_small(page@) == Some(
                old(allocator).nth_frame(0)->0.number,
            ),
            r is Ok ==> final(self).entry_at(
                final(self).p1_of(page@)->0,
                table_index(page@, 1),
            ) == encode_entry(old(allocator).nth_frame(0)->0.number, flags@),
            r is Ok ==> final(self).translate_page_spec(page@) == final(self).walk_small(
                page@,
            ),
            r is Err ==> final(self).translate_page_spec(page@) is None,
    {
        let ghost a0 = *allocator;
        let frame = match allocator.allocate_frame() {
            Some(frame) => frame,
            None => {
                proof {
                    self.lemma_clear_path(page@);
                    assert(a0.nth_frame(0) is None);
                }
                return Err(MapError::OutOfFrames);
            },
        };
        let ghost a1 = *allocator;
        proof {
            allocator.lemma_frames_above_floor();
            assert forall|i: nat| #[trigger] a1.nth_frame(i) is Some implies !self.holds_table(
                a1.nth_frame(i)->0.number,
            ) by {
                assert(a1.nth_frame(i) == a0.nth_frame(i + 1));
            }
        }
        let r = self.map_to(page, frame, flags, allocator);
        proof {
            let m = old(self).missing_tables(page@);
            assert forall|i: nat| #[trigger] a1.nth_frame(i) == a0.nth_frame(i + 1) by {}
            if r is Ok {
                assert forall|i: nat| i < m + 1 implies #[trigger] a0.nth_frame(i) is Some by {
                    if i > 0 {
                        assert(a1.nth_frame((i - 1) as nat) == a0.nth_frame(i));
                    }
                }
                assert forall|i: nat| #[trigger] allocator.nth_frame(i) == a0.nth_frame(i + m + 1) by {
                    assert(allocator.nth_frame(i) == a1.nth_frame(i + m));
                }
            } else {
                let j = choose|j: nat| j < m && !(#[trigger] a1.nth_frame(j) is Some);
                assert(a1.nth_frame(j) == a0.nth_frame(j + 1));
            }
        }
        r
    }

    /// Maps the page whose address is the start address of `frame` to
    /// `frame` itself.
    pub fn identity_map<A: FrameAllocator>(
        &mut self,
        frame: Frame,
        flags: EntryFlags,
        allocator: &mut A,
    ) -> (r: Result<(), MapError>)
        requires
            frame.number < MAX_FRAME_NUMBER,
            is_canonical((frame.number * 4096) as u64),
            old(self).clear_path(frame.number, old(allocator)),
            old(allocator).inv(),
        ensures
            final(self).wf(),
            final(allocator).inv(),
            final(allocator).floor() >= old(allocator).floor(),
            final(self).root() == old(self).root(),
            final(self).path_stored(frame.number),
            final(self).fresh_for(final(allocator)),
            final(self).huge_aligned(frame.number),
            final(self).changed_on_path_only(old(self), frame.number),
            forall|q: u64|
                #![trigger old(self).translate_page_spec(q)]
                old(self).translate_page_spec(q) is Some ==> (final(self).translate_page_spec(q)
                    == old(self).translate_page_spec(q)),
            final(self).tables_taken_from(old(self), frame.number, old(allocator), 0),
            r is Ok <==> Self::frames_suffice(old(allocator), old(self).missing_tables(frame.number)),
            r is Ok ==> forall|i: nat| #[trigger] final(allocator).nth_frame(i) == old(
                allocator,
            ).nth_frame(i + old(self).missing_tables(frame.number)),
            r is Err ==> forall|i: nat| #[trigger] final(allocator).nth_frame(i) is None,
            r is Ok ==> final(self).entry_at(
                final(self).p1_of(frame.number)->0,
                table_index(frame.number, 1),
            ) == encode_entry(frame.number, flags@),
            r is Ok ==> final(self).walk_small(frame.number) == Some(frame.number),
            r is Ok ==> final(self).translate_page_spec(frame.number) == Some(frame.number),
            r is Err ==> final(self).translate_page_spec(frame.number) is None,
    {
        let page = Page::containing_address(frame.start_address());
        self.map_to(page, frame, flags, allocator)
    }

    /// Removes the mapping of `page`, which must be mapped through a level-1
    /// entry. The frame is not handed back and emptied tables stay.
    pub fn unmap<A: FrameAllocator>(&mut self, page: Page, allocator: &mut A)
        requires
            old(self).wf(),
            old(self).walk_small(page@) is Some,
        ensures
            final(self).wf(),
            final(self).is_unmapped_from(old(self), page@),
            final(self).translate_page_spec(page@) is None,
            final(self).huge_aligned(page@),
            forall|g: u64| #[trigger] final(self).holds_table(g) == old(self).holds_table(g),
            old(self).fresh_for(old(allocator)) ==> final(self).fresh_for(final(allocator)),
            *final(allocator) == *old(allocator),
    {
        let ghost n = page@;
        let f3 = self.next_table(self.p4, page.p4_index()).unwrap();
        let f2 = self.next_table(f3, page.p3_index()).unwrap();
        let f1 = self.next_table(f2, page.p2_index()).unwrap();
        let ghost s0 = *self;
        self.write_slot(f1, page.p1_index(), 0);
        proof {
            s0.lemma_unmap_clears(self, n);
        }
    }

    /// The hierarchy is `prev` with the level-1 entry of page number `n`
    /// cleared and every other entry kept.
    pub open spec fn is_unmapped_from(&self, prev: &RecusivePageTable, n: u64) -> bool {
        &&& self.root() == prev.root()
        &&& forall|g: u64, j: u64|
            j < 512 ==> #[trigger] self.entry_at(g, j) == if prev.p1_of(n) == Some(g) && j
                == table_index(n, 1) {
                0
            } else {
                prev.entry_at(g, j)
            }
    }

    /// Clearing the level-1 entry of a page mapped through one, as `map_to`
    /// leaves it, makes the page translate to nothing again, whatever the
    /// recursive slot aliases.
    pub proof fn lemma_unmap_clears(&self, after: &RecusivePageTable, n: u64)
        requires
            self.walk_small(n) is Some,
            after.is_unmapped_from(self, n),
        ensures
            after.translate_page_spec(n) is None,
            after.huge_aligned(n),
    {
        lemma_unused_entry();
        let r = self.root();
        let f3 = self.p3_of(n)->0;
        let f2 = self.p2_of(n)->0;
        let f1 = self.p1_of(n)->0;
        let (i4, i3, i2, i1) = (
            table_index(n, 4),
            table_index(n, 3),
            table_index(n, 2),
            table_index(n, 1),
        );
        assert((n >> 27u64) & 0x1ff < 512 && (n >> 18u64) & 0x1ff < 512 && (n >> 9u64) & 0x1ff < 512
            && n & 0x1ff < 512) by (bit_vector);
        assert(after.entry_at(f1, i1) == 0);
        if !(r == f1 && i4 == i1) {
            assert(after.entry_at(r, i4) == self.entry_at(r, i4));
            if !(f3 == f1 && i3 == i1) {
                assert(after.entry_at(f3, i3) == self.entry_at(f3, i3));
                if !(f2 == f1 && i2 == i1) {
                    assert(after.entry_at(f2, i2) == self.entry_at(f2, i2));
                }
            }
        }
    }


    /// The entry word is present.
    fn is_present(e: &Entry) -> (r: bool)
        ensures
            r == entry_present(e.0),
    {
        e.pointed_frame().is_some()
    }

    /// `page` is mapped through a level-1 entry, as `unmap` requires.
    pub fn is_mapped(&self, page: &Page) -> (r: bool)
        requires
            self.wf(),
        ensures
            r == (self.walk_small(page@) is Some),
    {
        let f3 = match self.next_table(self.p4, page.p4_index()) {
            Some(f) => f,
            None => return false,
        };
        let f2 = match self.next_table(f3, page.p3_index()) {
            Some(f) => f,
            None => return false,
        };
        let f1 = match self.next_table(f2, page.p2_index()) {
            Some(f) => f,
            None => return false,
        };
        Self::is_present(&Entry(self.read_slot(f1, page.p1_index())))
    }

    /// Frame `f` holds a table of this hierarchy.
    fn holds(&self, f: u64) -> (r: bool)
        ensures
            r == self.holds_table(f),
    {
        self.tables.contains_key(&f)
    }

    /// `map_to` may map `page`: no huge entry on the way, the level-1 slot
    /// unused, the tables on the way held by the hierarchy. (That the
    /// allocator never hands out a held table is kept by every mapping
    /// function and is not tested here.)
    pub fn can_map(&self, page: &Page) -> (r: bool)
        requires
            self.wf(),
        ensures
            r == (self.no_huge_on_path(page@) && self.slot_unused(page@)
                && self.path_stored(page@)),
    {
        let root = self.p4;
        let e4 = Entry(self.read_slot(root, page.p4_index()));
        if Self::is_present(&e4) && Self::is_huge(&e4) {
            return false;
        }
        let f3 = match self.next_table(root, page.p4_index()) {
            Some(f) => f,
            None => return true,
        };
        let e3 = Entry(self.read_slot(f3, page.p3_index()));
        if !self.holds(f3) || (Self::is_present(&e3) && Self::is_huge(&e3)) {
            return false;
        }
        let f2 = match self.next_table(f3, page.p3_index()) {
            Some(f) => f,
            None => return true,
        };
        let e2 = Entry(self.read_slot(f2, page.p2_index()));
        if !self.holds(f2) || (Self::is_present(&e2) && Self::is_huge(&e2)) {
            return false;
        }
        match self.next_table(f2, page.p2_index()) {
            Some(f1) => self.holds(f1) && self.read_slot(f1, page.p1_index()) == 0,
            None => true,
        }
    }

    /// Every huge entry that translating `page` reaches is aligned, as
    /// `translate` requires.
    pub fn is_huge_aligned(&self, page: &Page) -> (r: bool)
        requires
            self.wf(),
        ensures
            r == self.huge_aligned(page@),
    {
        if self.is_mapped(page) {
            return true;
        }
        let f3 = match self.next_table(self.p4, page.p4_index()) {
            Some(f) => f,
            None => return true,
        };
        let e3 = Entry(self.read_slot(f3, page.p3_index()));
        if let Some(start) = e3.pointed_frame() {
            if Self::is_huge(&e3) {
                return start.number % 0x4_0000 == 0;
            }
        }
        match self.next_table(f3, page.p3_index()) {
            Some(f2) => {
                let e2 = Entry(self.read_slot(f2, page.p2_index()));
                match e2.pointed_frame() {
                    Some(start) => !Self::is_huge(&e2) || start.number % 512 == 0,
                    None => true,
                }
            },
            None => true,
        }
    }
    /// A translated frame number stays below 2^41.
    proof fn lemma_translate_page_bound(&self, n: u64)
        ensures
            self.translate_page_spec(n) matches Some(f) ==> f < 0x200_0000_0000,
    {
        let f3 = self.p3_of(n);
        let f2 = self.p2_of(n);
        let f1 = self.p1_of(n);
        if let Some(f1) = f1 {
            lemma_entry_frame_bound(self.entry_at(f1, table_index(n, 1)));
        }
        if let Some(f3) = f3 {
            lemma_entry_frame_bound(self.entry_at(f3, table_index(n, 3)));
        }
        if let Some(f2) = f2 {
            lemma_entry_frame_bound(self.entry_at(f2, table_index(n, 2)));
        }
        assert(table_index(n, 2) < 512 && table_index(n, 1) < 512) by (bit_vector);
    }
}

} // verus!
