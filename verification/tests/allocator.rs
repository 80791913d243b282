use early_mem::early_allocator::AllocError;
use early_mem::early_allocator::EarlyAllocator;

const PAGE: usize = 0x100;

fn fresh(start: usize, size: usize) -> EarlyAllocator<PAGE> {
    let mut a = EarlyAllocator::<PAGE>::new();
    a.init(start, size);
    a
}

#[test]
fn init_scenario() {
    let mut a = fresh(0x1000, 0x1000);
    assert_eq!(a.alloc_bytes(16, 8), Ok(0x1000));
    assert_eq!(a.used_bytes(), 16);
    assert_eq!(a.available_bytes(), 0x1000 - 16);
    assert_eq!(a.alloc_pages(1, 0x100), Ok(0x1F00));
    assert_eq!(a.used_pages(), 1);
    // The page region ate into the shared extent: the byte region's total
    // is measured up to the page cursor.
    assert_eq!(a.total_bytes(), 0xF00);
    assert_eq!(a.available_bytes(), 0xF00 - 16);
}

#[test]
fn fresh_allocator_is_empty() {
    let a = fresh(0x1000, 0x1000);
    assert_eq!(a.total_bytes(), 0x1000);
    assert_eq!(a.used_bytes(), 0);
    assert_eq!(a.available_bytes(), 0x1000);
    assert_eq!(a.total_pages(), 0x10);
    assert_eq!(a.used_pages(), 0);
    assert_eq!(a.available_pages(), 0x10);
}

#[test]
fn add_memory_unsupported() {
    let mut a = fresh(0x1000, 0x1000);
    assert_eq!(a.add_memory(0x4000, 0x1000), Err(AllocError::NoMemory));
    assert_eq!(a.total_bytes(), 0x1000);
}

#[test]
fn byte_cursor_rounds_up_to_alignment() {
    let mut a = fresh(0x1000, 0x1000);
    assert_eq!(a.alloc_bytes(5, 1), Ok(0x1000));
    // The cursor stands at 0x1005; a 16-aligned request rounds it up.
    assert_eq!(a.alloc_bytes(3, 16), Ok(0x1005));
    // 0x1005 + 3 = 0x1008, rounded up to 0x1010: the next pointer shows it.
    assert_eq!(a.alloc_bytes(1, 1), Ok(0x1010));
}

#[test]
fn same_alignment_run_returns_aligned_pointers() {
    let mut a = fresh(0x2000, 0x1000);
    for size in [1usize, 7, 16, 3, 64] {
        let p = a.alloc_bytes(size, 16).unwrap();
        assert_eq!(p % 16, 0);
    }
}

#[test]
fn byte_exhaustion_leaves_state_unchanged() {
    let mut a = fresh(0x1000, 0x100);
    assert_eq!(a.alloc_bytes(0x80, 8), Ok(0x1000));
    assert_eq!(a.alloc_bytes(0x81, 8), Err(AllocError::NoMemory));
    assert_eq!(a.used_bytes(), 0x80);
    // The cursor did not move: the next success starts where the last did.
    assert_eq!(a.alloc_bytes(0x10, 8), Ok(0x1080));
}

#[test]
fn byte_free_round_trip_in_any_order() {
    let mut a = fresh(0x1000, 0x1000);
    let p1 = a.alloc_bytes(16, 8).unwrap();
    let p2 = a.alloc_bytes(24, 8).unwrap();
    let p3 = a.alloc_bytes(8, 8).unwrap();
    assert_eq!(a.used_bytes(), 48);
    // Free out of allocation order: the middle object first.
    a.dealloc_bytes(p2, 24);
    assert_eq!(a.used_bytes(), 24);
    // Not all freed yet: the cursor has not reset.
    assert_eq!(a.alloc_bytes(8, 8), Ok(0x1030));
    a.dealloc_bytes(p3, 8);
    a.dealloc_bytes(p1, 16);
    a.dealloc_bytes(0x1030, 8);
    assert_eq!(a.used_bytes(), 0);
    // Everything freed: the byte region was reclaimed in one step.
    assert_eq!(a.alloc_bytes(16, 8), Ok(0x1000));
}

#[test]
fn page_exhaustion_leaves_cursor_unchanged() {
    let mut a = fresh(0x1000, 0x200);
    assert_eq!(a.alloc_pages(3, 0x100), Err(AllocError::NoMemory));
    assert_eq!(a.used_pages(), 0);
    assert_eq!(a.alloc_pages(2, 0x100), Ok(0x1000));
    assert_eq!(a.used_pages(), 2);
    // The gap is gone now: even one more page must fail.
    assert_eq!(a.alloc_pages(1, 0x100), Err(AllocError::NoMemory));
}

#[test]
fn page_region_collides_with_byte_region() {
    let mut a = fresh(0x1000, 0x300);
    assert_eq!(a.alloc_bytes(0x120, 8), Ok(0x1000));
    // Two pages would reach down to 0x1100, below the byte cursor.
    assert_eq!(a.alloc_pages(2, 0x100), Err(AllocError::NoMemory));
    assert_eq!(a.alloc_pages(1, 0x100), Ok(0x1200));
}

#[test]
fn page_alignment_must_be_page_multiple() {
    let mut a = fresh(0x1000, 0x1000);
    assert_eq!(a.alloc_pages(1, 0x80), Err(AllocError::InvalidParam));
    assert_eq!(a.used_pages(), 0);
}

#[test]
fn page_alignment_must_be_power_of_two_of_pages() {
    let mut a = fresh(0x1000, 0x1000);
    assert_eq!(a.alloc_pages(1, 0x300), Err(AllocError::InvalidParam));
    assert_eq!(a.alloc_pages(1, 0), Err(AllocError::InvalidParam));
    assert_eq!(a.used_pages(), 0);
}

#[test]
fn page_alignment_rounds_base_down() {
    let mut a = fresh(0x1000, 0x1000);
    assert_eq!(a.alloc_pages(1, 0x100), Ok(0x1F00));
    // A 0x400-aligned run: 0x1F00 - 0x100 = 0x1E00 rounds down to 0x1C00.
    assert_eq!(a.alloc_pages(1, 0x400), Ok(0x1C00));
    assert_eq!(a.used_pages(), 4);
}
