use agb::block_allocator::{Layout, ScreenblockAllocator};
use agb::bump_allocator::{BumpAllocator, StartEnd};

#[test]
fn bump_allocations_are_aligned_and_ordered() {
    let mut a = BumpAllocator::new(StartEnd { start: 0x1001, end: 0x1100 });
    assert_eq!(a.alloc_critical(Layout { size: 4, align: 4 }), Some(0x1004));
    assert_eq!(a.alloc_critical(Layout { size: 1, align: 1 }), Some(0x1008));
    assert_eq!(a.alloc_critical(Layout { size: 16, align: 16 }), Some(0x1010));
    assert_eq!(a.alloc_critical(Layout { size: 8, align: 8 }), Some(0x1020));
}

#[test]
fn bump_allocator_refuses_past_end() {
    let mut a = BumpAllocator::new(StartEnd { start: 0x100, end: 0x110 });
    assert_eq!(a.alloc_critical(Layout { size: 0x10, align: 1 }), None);
    assert_eq!(a.alloc_critical(Layout { size: 0x0f, align: 1 }), Some(0x100));
    assert_eq!(a.alloc_critical(Layout { size: 1, align: 1 }), None);
    let mut b = BumpAllocator::new(StartEnd { start: usize::MAX - 4, end: usize::MAX });
    assert_eq!(b.alloc_critical(Layout { size: 16, align: 8 }), None);
}

#[test]
fn screenblock_allocator_first_fit() {
    let mut s = ScreenblockAllocator::new();
    let one = Layout { size: 0x800, align: 0x800 };
    let two = Layout { size: 0x1000, align: 0x800 };
    assert_eq!(s.allocate(one), Some(0x0600_8000));
    assert_eq!(s.allocate(two), Some(0x0600_8800));
    s.deallocate(0x0600_8000, one);
    assert_eq!(s.allocate(two), Some(0x0600_9800));
    assert_eq!(s.allocate(one), Some(0x0600_8000));
    let four = Layout { size: 0x2000, align: 0x800 };
    assert_eq!(s.allocate(four), None);
}

#[test]
fn bump_cursor_resets_to_start_after_wrapping_to_zero() {
    let mut a = BumpAllocator::new(StartEnd { start: 0, end: 0x100 });
    assert_eq!(a.alloc_critical(Layout { size: 0, align: 1 }), Some(0));
    assert_eq!(a.alloc_critical(Layout { size: 4, align: 4 }), Some(0));
    assert_eq!(a.alloc_critical(Layout { size: 1, align: 1 }), Some(4));
}
