//! What the memory core takes from the boot loader's hand-off structure.
use vstd::prelude::*;

verus! {

/// A section of the kernel image: its physical start address and size.
#[derive(Clone, Copy, Debug, PartialEq, Eq, Structural)]
pub struct ImageSection {
    pub addr: u64,
    pub size: u64,
}

/// The address range `[start, end)` of the kernel image: from the lowest
/// section start to the highest section end. `None` for an image without
/// sections.
pub fn kernel_bounds(sections: &Vec<ImageSection>) -> (r: Option<(u64, u64)>)
    requires
        forall|i: int| 0 <= i < sections@.len() ==> #[trigger] sections@[i].addr + sections@[i].size <= u64::MAX,
    ensures
        sections@.len() == 0 <==> r is None,
        r matches Some((start, end)) ==> {
            &&& exists|i: int| 0 <= i < sections@.len() && #[trigger] sections@[i].addr == start
            &&& exists|i: int|
                0 <= i < sections@.len() && #[trigger] sections@[i].addr + sections@[i].size == end
            &&& forall|i: int|
                0 <= i < sections@.len() ==> start <= #[trigger] sections@[i].addr && sections@[i].addr
                    + sections@[i].size <= end
        },
{
    if sections.len() == 0 {
        return None;
    }
    let mut start = sections[0].addr;
    let mut end = sections[0].addr + sections[0].size;
    let mut k: usize = 1;
    while k < sections.len()
        invariant
            1 <= k <= sections@.len(),
            forall|i: int| 0 <= i < sections@.len() ==> #[trigger] sections@[i].addr + sections@[i].size <= u64::MAX,
            exists|i: int| 0 <= i < k && #[trigger] sections@[i].addr == start,
            exists|i: int| 0 <= i < k && #[trigger] sections@[i].addr + sections@[i].size == end,
            forall|i: int|
                0 <= i < k ==> start <= #[trigger] sections@[i].addr && sections@[i].addr
                    + sections@[i].size <= end,
        decreases sections@.len() - k,
    {
        let s = sections[k];
        if s.addr < start {
            start = s.addr;
        }
        if s.addr + s.size > end {
            end = s.addr + s.size;
        }
        k = k + 1;
    }
    Some((start, end))
}

} // verus!
