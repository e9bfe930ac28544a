use kernel::area_frame_allocator::{AreaFrameAllocator, MemoryArea};
use kernel::entry::{Entry, EntryFlags, HUGE_PAGE, NO_EXECUTE, PRESENT, WRITEABLE};
use kernel::frame::{Frame, FrameAllocator};
use kernel::page::Page;
use kernel::paging::{MapError, RecusivePageTable, RECURSIVE_INDEX};

fn setup() -> (RecusivePageTable, AreaFrameAllocator) {
    let mut a = AreaFrameAllocator::new(
        0x10000,
        0x20000,
        0x20000,
        0x21000,
        vec![MemoryArea { base_addr: 0, length: 0x100000 }],
    );
    let p4 = a.allocate_frame().unwrap();
    (RecusivePageTable::new(p4), a)
}

#[test]
fn page_contains_its_address() {
    for a in [0u64, 1, 4095, 4096, 0x1234_5678, 0x7fff_ffff_ffff, 0xffff_8000_0000_0000, u64::MAX] {
        let p = Page::containing_address(a);
        assert!(p.start_address() <= a);
        assert!(a - p.start_address() < 4096);
    }
}

#[test]
fn page_indices() {
    let p = Page::containing_address(0o123_456_701_234 * 4096);
    assert_eq!(p.number(), 0o123_456_701_234);
    assert_eq!(p.p4_index(), 0o123);
    assert_eq!(p.p3_index(), 0o456);
    assert_eq!(p.p2_index(), 0o701);
    assert_eq!(p.p1_index(), 0o234);
}

#[test]
fn entry_encoding() {
    let mut e = Entry::new();
    assert!(e.is_unused());
    assert_eq!(e.pointed_frame(), None);
    e.set(Frame { number: 0x1234 }, EntryFlags::from_bits_truncate(WRITEABLE | NO_EXECUTE));
    assert_eq!(e.0, 0x8000_0000_0123_4003);
    assert!(!e.is_unused());
    assert_eq!(e.pointed_frame(), Some(Frame { number: 0x1234 }));
    assert_eq!(e.flags().bits(), WRITEABLE | NO_EXECUTE | PRESENT);
    assert!(e.flags().contains(EntryFlags::from_bits_truncate(PRESENT)));
    assert!(!e.flags().contains(EntryFlags::from_bits_truncate(HUGE_PAGE)));
    e.set_unused();
    assert!(e.is_unused());
    assert_eq!(e.0, 0);
}

#[test]
fn entry_flags_drop_address_bits() {
    let e = Entry(0x0000_0000_0005_0000 | HUGE_PAGE);
    assert_eq!(e.flags().bits(), HUGE_PAGE);
    assert_eq!(e.pointed_frame(), None);
    assert_eq!(EntryFlags::from_bits_truncate(0xffff).bits(), 0x1ff);
    assert_eq!(EntryFlags::empty().union(EntryFlags::from_bits_truncate(WRITEABLE)).bits(), WRITEABLE);
}

#[test]
fn fresh_table_maps_only_itself() {
    let (pt, _a) = setup();
    assert_eq!(pt.translate(0), None);
    assert_eq!(pt.translate(0x1234_5000), None);
    // the recursive slot, followed four times, reaches the level-4 table
    assert_eq!(pt.translate(0xffff_ffff_ffff_f000), Some(0));
    assert_eq!(pt.translate(0xffff_ffff_ffff_f008), Some(8));
    assert_eq!(pt.table_entry(&Frame { number: 0 }, RECURSIVE_INDEX).0, 0x3);
}

#[test]
fn map_to_then_translate() {
    let (mut pt, mut a) = setup();
    let addr: u64 = 42 * 512 * 512 * 4096;
    assert_eq!(pt.translate(addr), None);
    let frame = a.allocate_frame().unwrap();
    assert_eq!(frame.number, 1);
    let page = Page::containing_address(addr);
    assert_eq!(pt.map_to(page, frame, EntryFlags::empty(), &mut a), Ok(()));
    for k in [0u64, 1, 7, 100, 2048, 4095] {
        assert_eq!(pt.translate(addr + k), Some(4096 + k));
    }
    assert_eq!(pt.translate(addr + 4096), None);
    // three tables were created from frames 2, 3 and 4
    assert_eq!(a.allocate_frame(), Some(Frame { number: 5 }));
}

#[test]
fn translate_twice_gives_the_same() {
    let (mut pt, mut a) = setup();
    let addr: u64 = 0x4000_2000;
    let frame = a.allocate_frame().unwrap();
    pt.map_to(Page::containing_address(addr), frame, EntryFlags::empty(), &mut a).unwrap();
    let first = pt.translate(addr + 5);
    let second = pt.translate(addr + 5);
    assert_eq!(first, second);
    assert_eq!(first, Some(0x1005));
}

#[test]
fn map_to_then_unmap() {
    let (mut pt, mut a) = setup();
    let addr: u64 = 42 * 512 * 512 * 4096;
    let frame = a.allocate_frame().unwrap();
    pt.map_to(Page::containing_address(addr), frame, EntryFlags::empty(), &mut a).unwrap();
    assert!(pt.translate(addr).is_some());
    pt.unmap(Page::containing_address(addr), &mut a);
    assert_eq!(pt.translate(addr), None);
    assert_eq!(pt.translate(addr + 4095), None);
}

#[test]
fn level_one_table_is_reached_through_the_recursive_slot() {
    let (mut pt, mut a) = setup();
    let page = Page::containing_address(((3 << 27) | (4 << 18) | (5 << 9) | 6) * 4096);
    let frame = a.allocate_frame().unwrap();
    pt.map_to(page, frame, EntryFlags::from_bits_truncate(WRITEABLE), &mut a).unwrap();
    // the level-1 table of the page was the third table created: frame 4
    let p1_view: u64 = 0xffff_ff80_0000_0000 | (3 << 30) | (4 << 21) | (5 << 12);
    assert_eq!(pt.translate(p1_view), Some(4 * 4096));
    assert_eq!(pt.table_entry(&Frame { number: 4 }, 6).0, 0x1003);
}

#[test]
fn map_picks_a_fresh_frame() {
    let (mut pt, mut a) = setup();
    let addr: u64 = 0x20_0000;
    assert_eq!(pt.map(Page::containing_address(addr), EntryFlags::empty(), &mut a), Ok(()));
    assert_eq!(pt.translate(addr + 3), Some(4096 + 3));
}

#[test]
fn identity_map_maps_frame_to_itself() {
    let (mut pt, mut a) = setup();
    let frame = Frame { number: 0xb8 };
    assert_eq!(pt.identity_map(frame, EntryFlags::from_bits_truncate(WRITEABLE), &mut a), Ok(()));
    assert_eq!(pt.translate(0xb8000), Some(0xb8000));
    assert_eq!(pt.translate(0xb8fff), Some(0xb8fff));
}

#[test]
fn map_reports_exhaustion() {
    let mut a = AreaFrameAllocator::new(0, 0, 0, 0, vec![MemoryArea { base_addr: 0, length: 0x3000 }]);
    let mut pt = RecusivePageTable::new(a.allocate_frame().unwrap());
    let addr: u64 = 0x40_0000_0000;
    assert_eq!(
        pt.map(Page::containing_address(addr), EntryFlags::empty(), &mut a),
        Err(MapError::OutOfFrames)
    );
    assert_eq!(pt.translate(addr), None);
    assert_eq!(a.allocate_frame(), None);
}

#[test]
fn huge_pages_translate() {
    let (mut pt, _a) = setup();
    let writeable = EntryFlags::from_bits_truncate(WRITEABLE);
    let huge = EntryFlags::from_bits_truncate(HUGE_PAGE);
    // level-4 slot 1 -> level-3 table in frame 50
    let mut e = Entry::new();
    e.set(Frame { number: 50 }, writeable);
    pt.set_table_entry(&Frame { number: 0 }, 1, e);
    // level-3 slot 0: a 1 GiB page at frame 512 * 512
    let mut e = Entry::new();
    e.set(Frame { number: 512 * 512 }, huge);
    pt.set_table_entry(&Frame { number: 50 }, 0, e);
    let base: u64 = 0x80_0000_0000;
    assert_eq!(pt.translate(base), Some(0x4000_0000));
    assert_eq!(pt.translate(base + 0x1234_5678), Some(0x4000_0000 + 0x1234_5678));
    assert_eq!(pt.translate(base + 0x3fff_ffff), Some(0x7fff_ffff));
    // level-3 slot 1 -> level-2 table in frame 51, whose slot 3 is a 2 MiB page
    let mut e = Entry::new();
    e.set(Frame { number: 51 }, writeable);
    pt.set_table_entry(&Frame { number: 50 }, 1, e);
    let mut e = Entry::new();
    e.set(Frame { number: 7 * 512 }, huge);
    pt.set_table_entry(&Frame { number: 51 }, 3, e);
    let a2 = base + (1 << 30) + 3 * (1 << 21) + 0x5_4321;
    assert_eq!(pt.translate(a2), Some(7 * 512 * 4096 + 0x5_4321));
    assert_eq!(pt.translate(base + (1 << 30) + 4 * (1 << 21)), None);
}

#[test]
fn checkers_report_preconditions() {
    let (mut pt, mut a) = setup();
    let page = Page::containing_address(0x4000_0000);
    assert!(!pt.is_mapped(&page));
    assert!(pt.can_map(&page));
    assert!(pt.is_huge_aligned(&page));
    let frame = a.allocate_frame().unwrap();
    pt.map_to(Page::containing_address(0x4000_0000), frame, EntryFlags::empty(), &mut a).unwrap();
    assert!(pt.is_mapped(&page));
    assert!(!pt.can_map(&page));
    // a misaligned 1 GiB page
    let mut e = Entry::new();
    e.set(Frame { number: 51 }, EntryFlags::from_bits_truncate(WRITEABLE));
    pt.set_table_entry(&Frame { number: 0 }, 2, e);
    let mut e = Entry::new();
    e.set(Frame { number: 512 * 512 + 1 }, EntryFlags::from_bits_truncate(HUGE_PAGE));
    pt.set_table_entry(&Frame { number: 51 }, 0, e);
    assert!(!pt.is_huge_aligned(&Page::containing_address(0x100_0000_0000)));
}

#[test]
fn map_to_stores_flags_and_present() {
    let (mut pt, mut a) = setup();
    let page = Page::containing_address(7 * 4096);
    let frame = Frame { number: 0x99 };
    pt.map_to(page, frame, EntryFlags::from_bits_truncate(NO_EXECUTE), &mut a).unwrap();
    // tables in frames 1, 2, 3; the level-1 entry holds frame | NO_EXECUTE | PRESENT
    assert_eq!(pt.table_entry(&Frame { number: 3 }, 7).0, 0x8000_0000_0009_9001);
    assert_eq!(pt.table_entry(&Frame { number: 0 }, 0).0, 0x1003);
    assert_eq!(pt.table_entry(&Frame { number: 1 }, 0).0, 0x2003);
    assert_eq!(pt.table_entry(&Frame { number: 2 }, 0).0, 0x3003);
}

#[test]
fn map_to_with_existing_tables_needs_no_frame() {
    let (mut pt, mut a) = setup();
    let f = a.allocate_frame().unwrap();
    pt.map_to(Page::containing_address(0x200 * 4096), f, EntryFlags::empty(), &mut a).unwrap();
    // exhaust the allocator
    while a.allocate_frame().is_some() {}
    assert_eq!(pt.map_to(Page::containing_address(0x201 * 4096), Frame { number: 0x77 }, EntryFlags::empty(), &mut a), Ok(()));
    assert_eq!(pt.translate(0x201 * 4096), Some(0x77 * 4096));
    assert_eq!(
        pt.map_to(Page::containing_address(0x40_0000 * 4096), Frame { number: 0x78 }, EntryFlags::empty(), &mut a),
        Err(MapError::OutOfFrames)
    );
}

#[test]
fn map_fails_on_exhausted_allocator_without_change() {
    let mut a = AreaFrameAllocator::new(0, 0, 0, 0, vec![MemoryArea { base_addr: 0, length: 0x1000 }]);
    let mut pt = RecusivePageTable::new(a.allocate_frame().unwrap());
    assert_eq!(pt.map(Page::containing_address(5 * 4096), EntryFlags::empty(), &mut a), Err(MapError::OutOfFrames));
    assert_eq!(pt.table_entry(&Frame { number: 0 }, 0).0, 0);
    assert_eq!(pt.map(Page::containing_address(5 * 4096), EntryFlags::empty(), &mut a), Err(MapError::OutOfFrames));
}

#[test]
fn map_takes_frames_in_increasing_order_outside_windows() {
    let mut a = AreaFrameAllocator::new(
        0x2000,
        0x4000,
        0x4000,
        0x5000,
        vec![MemoryArea { base_addr: 0, length: 0x100000 }],
    );
    let mut pt = RecusivePageTable::new(a.allocate_frame().unwrap());
    pt.map(Page::containing_address(0x1000 * 4096), EntryFlags::empty(), &mut a).unwrap();
    pt.map(Page::containing_address(0x1001 * 4096), EntryFlags::empty(), &mut a).unwrap();
    let first = pt.translate(0x1000 * 4096).unwrap() / 4096;
    let second = pt.translate(0x1001 * 4096).unwrap() / 4096;
    // frame 0 holds the level-4 table; 1 is mapped; 2..=4 are skipped; 5..=7 become tables
    assert_eq!(first, 1);
    assert_eq!(second, 8);
    assert!(second > first);
}
