use ramen::frame_allocator::{allocate_single_page_and_dealloc, FrameAllocator, FrameDescriptor};
use ramen::memory_map::{MemoryDescriptor, CONVENTIONAL_MEMORY};

const A: bool = true;
const U: bool = false;

fn frames(available: bool, start: u64, end: u64) -> FrameDescriptor {
    let pages = (end - start) / 4096;
    if available {
        FrameDescriptor::new_for_available(start, pages)
    } else {
        FrameDescriptor::new_for_used(start, pages)
    }
}

fn descriptors(runs: &[(bool, u64, u64)]) -> Vec<FrameDescriptor> {
    runs.iter().map(|&(a, s, e)| frames(a, s, e)).collect()
}

fn allocator(runs: &[(bool, u64, u64)]) -> FrameAllocator {
    let mut f = FrameAllocator::new();
    for d in descriptors(runs) {
        assert!(f.push_descriptor(d));
    }
    f
}

fn pages_in(ds: &[FrameDescriptor]) -> u64 {
    ds.iter().map(|d| d.num_of_pages).sum()
}

fn assert_sorted_and_merged(ds: &[FrameDescriptor]) {
    for w in ds.windows(2) {
        assert!(w[0].end() <= w[1].start);
        assert!(!(w[0].available && w[1].available && w[0].end() == w[1].start));
    }
    for d in ds {
        assert!(d.num_of_pages > 0);
    }
}

#[test]
fn fail_to_allocate() {
    let mut f = allocator(&[
        (A, 0, 0x1000),
        (A, 0x2000, 0xc000),
        (U, 0xc000, 0x10000),
        (U, 0x10000, 0x13000),
        (A, 0x13000, 0x15000),
    ]);

    let a = f.allocate(200);
    assert!(a.is_none());
}

#[test]
fn allocate_not_power_of_two() {
    let mut f = allocator(&[(A, 0, 0x1000), (A, 0x2000, 0xc000), (U, 0xc000, 0x10000)]);

    let a = f.allocate(3);

    assert_eq!(a, Some(0x2000));
    assert_eq!(
        f.descriptors(),
        descriptors(&[
            (A, 0, 0x1000),
            (U, 0x2000, 0x5000),
            (A, 0x5000, 0xc000),
            (U, 0xc000, 0x10000),
        ])
    );
}

#[test]
fn allocate_full_frames() {
    let mut f = allocator(&[(A, 0, 0x3000)]);
    let a = f.allocate(3);

    assert_eq!(a, Some(0));
    assert_eq!(f.descriptors(), descriptors(&[(U, 0, 0x3000)]));
}

#[test]
fn free_single_frames() {
    let mut f = allocator(&[(U, 0, 0x3000)]);
    f.dealloc(0);

    assert_eq!(f.descriptors(), descriptors(&[(A, 0, 0x3000)]));
}

#[test]
fn free_and_merge_with_before() {
    let mut f = allocator(&[(A, 0, 0x1000), (A, 0x2000, 0xc000), (U, 0xc000, 0x10000)]);

    f.dealloc(0xc000);

    assert_eq!(f.descriptors(), descriptors(&[(A, 0, 0x1000), (A, 0x2000, 0x10000)]));
}

#[test]
fn free_and_merge_with_after() {
    let mut f = allocator(&[(U, 0, 0x3000), (A, 0x3000, 0x5000)]);

    f.dealloc(0);

    assert_eq!(f.descriptors(), descriptors(&[(A, 0, 0x5000)]));
}

#[test]
fn free_and_merge_with_before_and_after() {
    let mut f = allocator(&[(A, 0, 0x3000), (U, 0x3000, 0x5000), (A, 0x5000, 0x10000)]);

    f.dealloc(0x3000);

    assert_eq!(f.descriptors(), descriptors(&[(A, 0, 0x10000)]));
}

#[test]
fn mergable_two_frmaes() {
    let f1 = frames(A, 0x2000, 0xc000);
    let f2 = frames(A, 0xc000, 0x10000);

    assert!(f1.is_mergeable(&f2));
}

#[test]
fn failed_allocation_leaves_descriptors_unchanged() {
    let runs = [(A, 0, 0x1000), (U, 0x1000, 0x5000), (A, 0x8000, 0x20000)];
    let mut f = allocator(&runs);
    assert_eq!(f.allocate(200), None);
    assert_eq!(f.descriptors(), descriptors(&runs));
}

#[test]
fn first_fit_picks_lowest_large_enough_run() {
    let mut f = allocator(&[
        (A, 0, 0x1000),
        (U, 0x1000, 0x2000),
        (A, 0x4000, 0x7000),
        (A, 0x9000, 0x10000),
    ]);
    assert_eq!(f.allocate(2), Some(0x4000));
    assert_eq!(f.allocate(2), Some(0x9000));
    assert_eq!(f.allocate(1), Some(0));
}

#[test]
fn alloc_then_dealloc_restores_split_run() {
    let runs = [(U, 0, 0x1000), (A, 0x1000, 0x9000), (U, 0x9000, 0xa000)];
    let mut f = allocator(&runs);
    let a = f.allocate(3).unwrap();
    assert_eq!(a, 0x1000);
    assert_eq!(f.descriptors().len(), 4);
    f.dealloc(a);
    assert_eq!(f.descriptors(), descriptors(&runs));
}

#[test]
fn pages_are_conserved_over_many_operations() {
    let mut f = allocator(&[(A, 0, 0x10000), (U, 0x10000, 0x12000), (A, 0x20000, 0x30000)]);
    let total = pages_in(&f.descriptors());
    let mut held = Vec::new();
    for n in [1u64, 3, 2, 5, 1, 4] {
        if let Some(a) = f.allocate(n) {
            held.push(a);
        }
        let ds = f.descriptors();
        assert_eq!(pages_in(&ds), total);
        assert_sorted_and_merged(&ds);
    }
    for a in held.iter().rev().step_by(2) {
        f.dealloc(*a);
        let ds = f.descriptors();
        assert_eq!(pages_in(&ds), total);
        assert_sorted_and_merged(&ds);
    }
    for a in held {
        f.dealloc(a);
        let ds = f.descriptors();
        assert_eq!(pages_in(&ds), total);
        assert_sorted_and_merged(&ds);
    }
    assert_eq!(
        f.descriptors(),
        descriptors(&[(A, 0, 0x10000), (U, 0x10000, 0x12000), (A, 0x20000, 0x30000)])
    );
}

#[test]
fn dealloc_of_unknown_address_does_nothing() {
    let runs = [(U, 0, 0x3000), (A, 0x3000, 0x5000)];
    let mut f = allocator(&runs);
    f.dealloc(0x1000);
    f.dealloc(0x3000);
    assert_eq!(f.descriptors(), descriptors(&runs));
}

#[test]
fn push_descriptor_rejects_overlap_and_touching_free_runs() {
    let mut f = allocator(&[(A, 0, 0x2000)]);
    assert!(!f.push_descriptor(frames(U, 0x1000, 0x3000)));
    assert!(!f.push_descriptor(frames(A, 0x2000, 0x3000)));
    assert!(!f.push_descriptor(FrameDescriptor::new_for_used(0x5000, 0)));
    assert!(f.push_descriptor(frames(U, 0x2000, 0x3000)));
    assert_eq!(f.descriptors().len(), 2);
}

#[test]
fn init_seeds_conventional_ranges_in_order() {
    let md = |ty: u32, start: u64, pages: u64| MemoryDescriptor {
        ty,
        physical_start: start,
        virtual_start: 0,
        number_of_pages: pages,
        attribute: 0,
    };
    let mmap = [
        md(CONVENTIONAL_MEMORY, 0, 2),
        md(3, 0x2000, 1),
        md(CONVENTIONAL_MEMORY, 0x4000, 4),
    ];
    let mut f = FrameAllocator::new();
    f.init(&mmap);
    assert_eq!(f.descriptors(), descriptors(&[(A, 0, 0x2000), (A, 0x4000, 0x8000)]));
    assert_eq!(f.allocate_frame(), Some(0));
    f.deallocate_frame(0);
    assert_eq!(f.descriptors(), descriptors(&[(A, 0, 0x2000), (A, 0x4000, 0x8000)]));
}

#[test]
fn single_page_round_trip_leaves_allocator_unchanged() {
    let runs = [(U, 0, 0x1000), (A, 0x1000, 0x4000)];
    let mut f = allocator(&runs);
    assert_eq!(allocate_single_page_and_dealloc(&mut f), Some(0x1000));
    assert_eq!(f.descriptors(), descriptors(&runs));

    let mut full = allocator(&[(U, 0, 0x1000)]);
    assert_eq!(allocate_single_page_and_dealloc(&mut full), None);
}

#[test]
fn descriptor_end_and_predicates() {
    let d = frames(A, 0x2000, 0x5000);
    assert_eq!(d.end(), 0x5000);
    assert!(d.is_splittable(2));
    assert!(!d.is_splittable(3));
    assert!(d.is_available_for_allocating(3));
    assert!(!d.is_available_for_allocating(4));
    assert!(d.is_consecutive(&frames(U, 0x5000, 0x6000)));
    assert!(!d.is_mergeable(&frames(U, 0x5000, 0x6000)));
}

fn full_list() -> FrameAllocator {
    let mut f = FrameAllocator::new();
    assert!(f.push_descriptor(FrameDescriptor::new_for_available(0, 2)));
    for i in 1..128u64 {
        let d = if i % 2 == 0 {
            FrameDescriptor::new_for_available(i * 0x4000, 1)
        } else {
            FrameDescriptor::new_for_used(i * 0x4000, 1)
        };
        assert!(f.push_descriptor(d));
    }
    assert_eq!(f.len(), 128);
    f
}

#[test]
fn full_list_still_serves_exact_fits_and_reports_exhaustion() {
    let mut f = full_list();
    assert!(!f.has_room(1));
    assert!(f.has_room(2));
    assert!(f.has_room(5));
    assert_eq!(f.allocate(5), None);
    assert_eq!(f.len(), 128);
    assert_eq!(f.allocate(2), Some(0));
    assert_eq!(f.len(), 128);
    assert!(f.has_room(1));
    assert_eq!(f.allocate_frame(), Some(0x8000));
    assert_eq!(f.len(), 128);
}

#[test]
fn init_keeps_one_run_per_range_and_refuses_touching_free_ranges() {
    let md = |ty: u32, start: u64, pages: u64| MemoryDescriptor {
        ty,
        physical_start: start,
        virtual_start: 0,
        number_of_pages: pages,
        attribute: 0,
    };
    let apart = [
        md(CONVENTIONAL_MEMORY, 0, 2),
        md(CONVENTIONAL_MEMORY, 0x3000, 2),
        md(3, 0x5000, 1),
        md(CONVENTIONAL_MEMORY, 0x6000, 2),
    ];
    let mut f = FrameAllocator::new();
    f.init(&apart);
    assert_eq!(
        f.descriptors(),
        descriptors(&[(A, 0, 0x2000), (A, 0x3000, 0x5000), (A, 0x6000, 0x8000)])
    );

    let touching = [md(CONVENTIONAL_MEMORY, 0, 1), md(CONVENTIONAL_MEMORY, 0x1000, 1)];
    let mut g = FrameAllocator::new();
    assert!(!g.try_init(&touching));

    let mut h = FrameAllocator::new();
    assert!(h.try_init(&apart));
    assert_eq!(h.descriptors(), f.descriptors());
}

#[test]
fn try_init_rejects_overlapping_ranges() {
    let md = |start: u64, pages: u64| MemoryDescriptor {
        ty: CONVENTIONAL_MEMORY,
        physical_start: start,
        virtual_start: 0,
        number_of_pages: pages,
        attribute: 0,
    };
    let mut f = FrameAllocator::new();
    assert!(!f.try_init(&[md(0, 4), md(0x2000, 4)]));
    assert_eq!(f.descriptors(), descriptors(&[(A, 0, 0x4000)]));
    let mut g = FrameAllocator::new();
    assert!(!g.try_init(&[md(0x1000, 0)]));
}
