//! The hardware encoding of a page-table entry.
use vstd::prelude::*;
use crate::frame::{Frame, MAX_FRAME_NUMBER};

verus! {

/// The page this entry maps to is in memory.
pub const PRESENT: u64 = 0x1;
/// The page is writable.
pub const WRITEABLE: u64 = 0x2;
/// User-mode code may access the page.
pub const USER_ACCESSIBLE: u64 = 0x4;
/// Writes go directly to memory, bypassing the cache.
pub const WRITE_THROUGH: u64 = 0x8;
/// No cache is used for the page.
pub const NO_CACHE: u64 = 0x10;
/// Set by the CPU when the page is accessed.
pub const ACCESSED: u64 = 0x20;
/// Set by the CPU when the page is written.
pub const DIRTY: u64 = 0x40;
/// A 1 GiB page in a level-3 table, a 2 MiB page in a level-2 table.
pub const HUGE_PAGE: u64 = 0x80;
/// The page is kept in the translation cache across address-space switches.
pub const GLOBAL: u64 = 0x100;
/// Code cannot be executed from the page.
pub const NO_EXECUTE: u64 = 0x8000_0000_0000_0000;

/// Every flag bit defined above.
pub const FLAG_MASK: u64 = 0x8000_0000_0000_01ff;

/// The bits of an entry that hold a frame's physical address.
pub const ADDRESS_MASK: u64 = 0x000f_ffff_ffff_f000;

/// The PRESENT bit of an entry word is set.
pub open spec fn entry_present(e: u64) -> bool {
    e & 1 == 1
}

/// The HUGE_PAGE bit of an entry word is set.
pub open spec fn entry_huge(e: u64) -> bool {
    e & 0x80 == 0x80
}

/// The number of the frame whose address an entry word holds.
pub open spec fn entry_frame(e: u64) -> u64 {
    (e & 0x000f_ffff_ffff_f000) >> 12
}

/// The entry word that maps frame number `n` with the flag bits `f`; PRESENT
/// is always part of it.
pub open spec fn encode_entry(n: u64, f: u64) -> u64 {
    ((n << 12) | f) | 1
}

/// Decoding an encoded entry gives back its frame and its flags.
pub proof fn lemma_encode_entry(n: u64, f: u64)
    requires
        n < 0x100_0000_0000,
        f & !0x8000_0000_0000_01ffu64 == 0,
    ensures
        entry_present(encode_entry(n, f)),
        entry_frame(encode_entry(n, f)) == n,
        entry_huge(encode_entry(n, f)) == (f & 0x80 == 0x80),
        encode_entry(n, f) != 0,
        encode_entry(n, f) & 0x8000_0000_0000_01ff == f | 1,
{
    assert(((((n << 12) | f) | 1) & 1 == 1)) by (bit_vector);
    assert((((((n << 12) | f) | 1) & 0x000f_ffff_ffff_f000) >> 12 == n)) by (bit_vector)
        requires
            n < 0x100_0000_0000,
            f & !0x8000_0000_0000_01ffu64 == 0,
    ;
    assert(((((n << 12) | f) | 1) & 0x80 == 0x80) == (f & 0x80 == 0x80)) by (bit_vector);
    assert((((n << 12) | f) | 1) != 0) by (bit_vector);
    assert((((n << 12) | f) | 1) & 0x8000_0000_0000_01ff == f | 1) by (bit_vector)
        requires
            n < 0x100_0000_0000,
            f & !0x8000_0000_0000_01ffu64 == 0,
    ;
}

/// A set of entry flags: a 64-bit word in which only the defined flag bits
/// may be set.
#[derive(Clone, Copy)]
pub struct EntryFlags {
    bits: u64,
}

impl View for EntryFlags {
    type V = u64;

    closed spec fn view(&self) -> u64 {
        self.bits
    }
}

impl EntryFlags {
    #[verifier::type_invariant]
    spec fn inv(&self) -> bool {
        self.bits & !FLAG_MASK == 0
    }

    /// The empty set of flags.
    pub fn empty() -> (r: EntryFlags)
        ensures
            r@ == 0,
    {
        assert(0u64 & !0x8000_0000_0000_01ffu64 == 0) by (bit_vector);
        EntryFlags { bits: 0 }
    }

    /// The flags among `bits`; other bits are dropped.
    pub fn from_bits_truncate(bits: u64) -> (r: EntryFlags)
        ensures
            r@ == bits & FLAG_MASK,
    {
        assert((bits & 0x8000_0000_0000_01ffu64) & !0x8000_0000_0000_01ffu64 == 0) by (bit_vector);
        EntryFlags { bits: bits & FLAG_MASK }
    }

    /// The flags as a word.
    pub fn bits(&self) -> (r: u64)
        ensures
            r == self@,
            r & !FLAG_MASK == 0,
    {
        proof {
            use_type_invariant(self);
        }
        self.bits
    }

    /// Every flag of `other` is set in `self`.
    pub fn contains(&self, other: EntryFlags) -> (r: bool)
        ensures
            r == (self@ & other@ == other@),
    {
        self.bits & other.bits == other.bits
    }

    /// The flags set in either.
    pub fn union(&self, other: EntryFlags) -> (r: EntryFlags)
        ensures
            r@ == self@ | other@,
    {
        proof {
            use_type_invariant(self);
            use_type_invariant(&other);
        }
        let a = self.bits;
        let b = other.bits;
        assert((a | b) & !0x8000_0000_0000_01ffu64 == 0) by (bit_vector)
            requires
                a & !0x8000_0000_0000_01ffu64 == 0,
                b & !0x8000_0000_0000_01ffu64 == 0,
        ;
        EntryFlags { bits: a | b }
    }
}

/// An entry of a page table: a frame address in bits 12 to 51 and flags in
/// the others. The all-zero word is the unused entry.
pub struct Entry(pub u64);

impl Entry {
    /// An unused entry.
    pub fn new() -> (r: Entry)
        ensures
            r.0 == 0,
    {
        Entry(0)
    }

    /// The entry is unused: all its bits are zero.
    pub fn is_unused(&self) -> (r: bool)
        ensures
            r == (self.0 == 0),
    {
        self.0 == 0
    }

    /// Makes the entry unused.
    pub fn set_unused(&mut self)
        ensures
            final(self).0 == 0,
    {
        self.0 = 0;
    }

    /// The entry's flags.
    pub fn flags(&self) -> (r: EntryFlags)
        ensures
            r@ == self.0 & FLAG_MASK,
    {
        EntryFlags::from_bits_truncate(self.0)
    }

    /// The frame that the entry points to, if the entry is present.
    pub fn pointed_frame(&self) -> (r: Option<Frame>)
        ensures
            r == (if entry_present(self.0) {
                Some(Frame { number: entry_frame(self.0) })
            } else {
                None
            }),
    {
        let e = self.0;
        let fl = self.flags();
        let p = EntryFlags::from_bits_truncate(PRESENT);
        let ghost fb = fl@;
        let ghost pb = p@;
        assert(fb == e & 0x8000_0000_0000_01ffu64);
        assert(pb == 1u64 & 0x8000_0000_0000_01ffu64);
        assert((fb & pb == pb) == (e & 1 == 1)) by (bit_vector)
            requires
                fb == e & 0x8000_0000_0000_01ffu64,
                pb == 1u64 & 0x8000_0000_0000_01ffu64,
        ;
        if fl.contains(p) {
            let a = e & ADDRESS_MASK;
            assert(a / 4096 == a >> 12) by (bit_vector);
            Some(Frame::containing_address(a))
        } else {
            None
        }
    }

    /// Points the entry at `frame` with `flags`; PRESENT is always set.
    pub fn set(&mut self, frame: Frame, flags: EntryFlags)
        requires
            frame.number < MAX_FRAME_NUMBER,
        ensures
            final(self).0 == encode_entry(frame.number, flags@),
            entry_present(final(self).0),
            entry_frame(final(self).0) == frame.number,
            entry_huge(final(self).0) == (flags@ & HUGE_PAGE == HUGE_PAGE),
            final(self).0 & FLAG_MASK == flags@ | PRESENT,
    {
        let fb = flags.bits();
        let n = frame.number;
        let start = frame.start_address();
        assert(start == n << 12) by (bit_vector)
            requires
                n < 0x100_0000_0000,
                start == n * 4096,
        ;
        proof {
            lemma_encode_entry(n, fb);
        }
        self.0 = (start | fb) | PRESENT;
    }
}

} // verus!
