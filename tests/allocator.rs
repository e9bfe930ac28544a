use kernel::boot::{kernel_bounds, ImageSection};
use kernel::area_frame_allocator::{areas_in_order, AreaFrameAllocator, MemoryArea};
use kernel::frame::{Frame, FrameAllocator};

fn one_mib_allocator() -> AreaFrameAllocator {
    AreaFrameAllocator::new(
        0x10000,
        0x20000,
        0x20000,
        0x21000,
        vec![MemoryArea { base_addr: 0, length: 0x100000 }],
    )
}

#[test]
fn frame_containing_address_floors() {
    assert_eq!(Frame::containing_address(0).number, 0);
    assert_eq!(Frame::containing_address(4095).number, 0);
    assert_eq!(Frame::containing_address(4096).number, 1);
    assert_eq!(Frame::containing_address(0x12345).start_address(), 0x12000);
}

#[test]
fn allocator_skips_kernel_and_boot_info() {
    let mut a = one_mib_allocator();
    let mut last: Option<u64> = None;
    let mut count: u64 = 0;
    while let Some(f) = a.allocate_frame() {
        let addr = f.start_address();
        assert!(addr < 0x10000 || addr >= 0x21000, "frame at {:#x} is excluded", addr);
        if let Some(prev) = last {
            assert!(f.number > prev);
        }
        last = Some(f.number);
        count += 1;
    }
    // 256 frames, minus 16 of the kernel and 1 of the boot information
    assert_eq!(count, 256 - 16 - 1);
    assert_eq!(last, Some(0xff));
}

#[test]
fn allocator_hands_out_in_order() {
    let mut a = one_mib_allocator();
    for n in 0..16u64 {
        assert_eq!(a.allocate_frame(), Some(Frame { number: n }));
    }
    assert_eq!(a.allocate_frame(), Some(Frame { number: 0x21 }));
    assert_eq!(a.allocate_frame(), Some(Frame { number: 0x22 }));
}

#[test]
fn allocator_stays_exhausted() {
    let mut a = AreaFrameAllocator::new(
        0,
        0,
        0,
        0,
        vec![
            MemoryArea { base_addr: 0x1000, length: 0x2000 },
            MemoryArea { base_addr: 0x8000, length: 0x1000 },
        ],
    );
    assert_eq!(a.allocate_frame(), Some(Frame { number: 1 }));
    assert_eq!(a.allocate_frame(), Some(Frame { number: 2 }));
    assert_eq!(a.allocate_frame(), Some(Frame { number: 8 }));
    assert_eq!(a.allocate_frame(), None);
    assert_eq!(a.allocate_frame(), None);
    a.deallocate_frame(Frame { number: 8 });
    assert_eq!(a.allocate_frame(), None);
}

#[test]
fn allocator_uses_whole_frames_only() {
    let mut a = AreaFrameAllocator::new(
        0,
        0,
        0,
        0,
        vec![
            MemoryArea { base_addr: 0x800, length: 0x1000 },
            MemoryArea { base_addr: 0x2800, length: 0x2000 },
        ],
    );
    assert_eq!(a.allocate_frame(), Some(Frame { number: 3 }));
    assert_eq!(a.allocate_frame(), None);
}

#[test]
fn allocator_with_no_areas_is_empty() {
    let mut a = AreaFrameAllocator::new(0, 0, 0, 0, vec![]);
    assert_eq!(a.allocate_frame(), None);
}

#[test]
fn allocator_skips_kernel_spanning_areas() {
    let mut a = AreaFrameAllocator::new(
        0x1000,
        0x5000,
        0x6000,
        0x6001,
        vec![
            MemoryArea { base_addr: 0x0, length: 0x3000 },
            MemoryArea { base_addr: 0x4000, length: 0x4000 },
        ],
    );
    assert_eq!(a.allocate_frame(), Some(Frame { number: 0 }));
    assert_eq!(a.allocate_frame(), Some(Frame { number: 5 }));
    assert_eq!(a.allocate_frame(), Some(Frame { number: 7 }));
    assert_eq!(a.allocate_frame(), None);
}

#[test]
fn kernel_bounds_spans_all_sections() {
    assert_eq!(kernel_bounds(&vec![]), None);
    let sections = vec![
        ImageSection { addr: 0x10_0000, size: 0x2000 },
        ImageSection { addr: 0x10_3000, size: 0x500 },
        ImageSection { addr: 0xf_f000, size: 0x100 },
    ];
    assert_eq!(kernel_bounds(&sections), Some((0xf_f000, 0x10_3500)));
}

#[test]
fn areas_in_order_checks_sorting_and_limit() {
    assert!(areas_in_order(&vec![]));
    assert!(areas_in_order(&vec![
        MemoryArea { base_addr: 0, length: 0x1000 },
        MemoryArea { base_addr: 0x1000, length: 0x1000 },
    ]));
    assert!(!areas_in_order(&vec![
        MemoryArea { base_addr: 0x1000, length: 0x1000 },
        MemoryArea { base_addr: 0, length: 0x1000 },
    ]));
    assert!(!areas_in_order(&vec![MemoryArea { base_addr: 0x10_0000_0000_0000, length: 1 }]));
    assert!(!areas_in_order(&vec![MemoryArea { base_addr: u64::MAX, length: 2 }]));
}
