//! Virtual memory pages and their decomposition into table indices.
use vstd::prelude::*;
use crate::VirtualAddress;
use crate::frame::PAGE_SIZE;

verus! {

/// The address lies in one of the two canonical halves of the 48-bit
/// virtual address space.
pub open spec fn is_canonical(address: u64) -> bool {
    address < 0x0000_8000_0000_0000 || address >= 0xffff_8000_0000_0000
}

/// A page of virtual memory, `PAGE_SIZE` bytes, identified by its index.
#[derive(Debug, PartialEq, Eq, Structural)]
pub struct Page {
    number: u64,
}

impl View for Page {
    type V = u64;

    /// The page's number.
    closed spec fn view(&self) -> u64 {
        self.number
    }
}

/// The index that selects the entry of the level-`level` table for page
/// number `n`: nine bits of `n`, the level-4 index being the highest.
pub open spec fn table_index(n: u64, level: int) -> u64 {
    if level == 4 {
        (n >> 27u64) & 0x1ff
    } else if level == 3 {
        (n >> 18u64) & 0x1ff
    } else if level == 2 {
        (n >> 9u64) & 0x1ff
    } else {
        n & 0x1ff
    }
}

impl Page {
    /// The page that contains the canonical address `address`.
    pub fn containing_address(address: VirtualAddress) -> (r: Page)
        requires
            is_canonical(address),
        ensures
            r@ == address / 4096,
            r@ * 4096 <= address < r@ * 4096 + 4096,
    {
        Page { number: address / PAGE_SIZE }
    }

    /// The first virtual address of the page.
    pub fn start_address(&self) -> (r: VirtualAddress)
        requires
            self@ * 4096 <= u64::MAX,
        ensures
            r == self@ * 4096,
    {
        self.number * PAGE_SIZE
    }

    /// The page's number.
    pub fn number(&self) -> (r: u64)
        ensures
            r == self@,
    {
        self.number
    }

    /// The index into the level-4 table.
    pub fn p4_index(&self) -> (r: u64)
        ensures
            r == table_index(self@, 4),
            r < 512,
    {
        let n = self.number;
        assert((n >> 27u64) & 0x1ff < 512) by (bit_vector);
        (n >> 27) & 0o777
    }

    /// The index into the level-3 table.
    pub fn p3_index(&self) -> (r: u64)
        ensures
            r == table_index(self@, 3),
            r < 512,
    {
        let n = self.number;
        assert((n >> 18u64) & 0x1ff < 512) by (bit_vector);
        (n >> 18) & 0o777
    }

    /// The index into the level-2 table.
    pub fn p2_index(&self) -> (r: u64)
        ensures
            r == table_index(self@, 2),
            r < 512,
    {
        let n = self.number;
        assert((n >> 9u64) & 0x1ff < 512) by (bit_vector);
        (n >> 9) & 0o777
    }

    /// The index into the level-1 table.
    pub fn p1_index(&self) -> (r: u64)
        ensures
            r == table_index(self@, 1),
            r < 512,
    {
        let n = self.number;
        assert(n & 0x1ff < 512) by (bit_vector);
        n & 0o777
    }
}

/// Every canonical address lies inside the page that contains it.
pub proof fn lemma_page_contains_address(a: u64)
    requires
        is_canonical(a),
    ensures
        (a / 4096) * 4096 <= a < (a / 4096) * 4096 + 4096,
        (a / 4096) * 4096 <= u64::MAX,
{
}

} // verus!
