use std::sync::atomic::{AtomicUsize, Ordering};

use tinyalloc::arena::{Arena, ArenaError};
use tinyalloc::large::{Large, LargeError};
use tinyalloc::header::block_request;
use tinyalloc::classes::classes;
use tinyalloc::config::{
    ARENA_INITIAL_SIZE, LARGE_SC_LIMIT, PAGE_SIZE, REMOTE_CHECK_FREQUENCY, SEGMENT_SIZE, SIZES,
};
use tinyalloc::heap::{Heap, HeapError};
use tinyalloc::mapper::{MapError, Mapper, MapperRequires, Permissions};
use tinyalloc::queue::{Position, Queue};
use tinyalloc::registry::Registry;
use tinyalloc::segment::Segment;

/// Hands out page-aligned address ranges without touching memory.
struct FakeMapper {
    next: AtomicUsize,
    maps: AtomicUsize,
    unmaps: AtomicUsize,
    decommits: AtomicUsize,
}

impl FakeMapper {
    fn new() -> Self {
        FakeMapper {
            next: AtomicUsize::new(1 << 32),
            maps: AtomicUsize::new(0),
            unmaps: AtomicUsize::new(0),
            decommits: AtomicUsize::new(0),
        }
    }
}

impl MapperRequires for FakeMapper {}

impl Mapper for FakeMapper {
    fn map(&self, size: usize) -> Result<usize, MapError> {
        let len = (size + PAGE_SIZE - 1) / PAGE_SIZE * PAGE_SIZE;
        self.maps.fetch_add(1, Ordering::SeqCst);
        Ok(self.next.fetch_add(len + PAGE_SIZE, Ordering::SeqCst))
    }

    fn unmap(&self, _addr: usize, _size: usize) {
        self.unmaps.fetch_add(1, Ordering::SeqCst);
    }

    fn decommit(&self, _addr: usize, _size: usize) -> Result<(), MapError> {
        self.decommits.fetch_add(1, Ordering::SeqCst);
        Ok(())
    }

    fn protect(&self, _addr: usize, _size: usize, _prot: Permissions) -> Result<(), MapError> {
        Ok(())
    }
}

fn segment_count(heap: &Heap, id: usize) -> usize {
    let q = heap.queue(id).unwrap();
    q.count(Position::Free) + q.count(Position::Partial) + q.count(Position::Full)
}

#[test]
fn segment_smallest_class_utilization() {
    let table = classes();
    let smallest_class = table[0];
    let segment = Segment::new(smallest_class, SEGMENT_SIZE, SEGMENT_SIZE)
        .expect("segment must initialize for smallest class");

    let user_space = segment.user_len();
    let object_size = smallest_class.size.0;
    let max_objects = user_space / object_size;
    let remainder = user_space % object_size;

    assert_eq!(object_size, 8, "First class should be 8 bytes");
    assert_eq!(remainder, 0, "Should have perfect fit for 8-byte objects");
    assert!(max_objects > 16000, "Should fit many small objects");
}

#[test]
fn segment_space_utilization_analysis() {
    let mut perfect_fits = 0;
    let mut worst_utilization = 100.0;

    for class in classes().iter() {
        let segment = Segment::new(*class, SEGMENT_SIZE, SEGMENT_SIZE)
            .expect("segment must initialize for class");

        let user_space = segment.user_len();
        let object_size = class.size.0;
        let remainder = user_space % object_size;
        let utilization = ((user_space - remainder) as f64 / user_space as f64) * 100.0;

        if remainder == 0 {
            perfect_fits += 1;
        }
        if utilization < worst_utilization {
            worst_utilization = utilization;
        }

        assert!(remainder < object_size);
        assert!(utilization > 50.0, "Class {} has poor utilization: {:.1}%", class.id, utilization);
    }

    assert!(perfect_fits >= 2, "Should have at least 2 perfect fit classes");
    assert!(worst_utilization > 50.0, "Worst case should be > 50% utilization");
}

#[test]
fn segment_alloc_dealloc_basic() {
    let class = classes()[0];
    let mut segment = Segment::new(class, SEGMENT_SIZE, SEGMENT_SIZE).expect("segment must initialize");

    let ptr1 = segment.alloc_slot().expect("Should allocate first object");
    assert!(!segment.bitmap().is_clear(), "Bitmap should not be clear after allocation");

    let ptr2 = segment.alloc_slot().expect("Should allocate second object");
    assert_ne!(ptr1, ptr2, "Should get different pointers");

    assert!(segment.dealloc(ptr1), "Should successfully deallocate first object");
    assert!(segment.dealloc(ptr2), "Should successfully deallocate second object");
    assert!(segment.bitmap().is_clear(), "Bitmap should be clear after all deallocations");

    let ptr3 = segment.alloc_slot().expect("Should be able to reallocate");
    assert_eq!(ptr2, ptr3, "Should reuse most recently deallocated slot (cache LIFO)");
}

#[test]
fn segment_bitmap_sizing_correctness() {
    for class in classes().iter() {
        let segment = Segment::new(*class, SEGMENT_SIZE, SEGMENT_SIZE)
            .expect("segment must initialize for bitmap sizing");

        let max_objects = segment.user_len() / class.size.0;
        let bitmap_words_needed = (max_objects + u64::BITS as usize - 1) / u64::BITS as usize;
        let actual_bitmap_words = segment.bitmap().store().len();

        assert!(actual_bitmap_words >= bitmap_words_needed);
        assert!(actual_bitmap_words <= bitmap_words_needed + 16);
    }
}

#[test]
fn segment_rejects_foreign_and_double_frees() {
    let class = classes()[3];
    let mut segment = Segment::new(class, SEGMENT_SIZE, SEGMENT_SIZE).unwrap();
    let p = segment.alloc_slot().unwrap();
    assert_eq!(p % class.align.0, 0);
    assert!(segment.contains_ptr(p));
    assert!(!segment.dealloc(p + 1));
    assert!(!segment.dealloc(SEGMENT_SIZE));
    assert!(segment.dealloc(p));
    assert!(!segment.dealloc(p));
    assert!(segment.is_empty());
    assert!(!segment.is_full());
}

#[test]
fn segment_fills_up() {
    let class = classes()[SIZES - 1];
    let mut segment = Segment::new(class, SEGMENT_SIZE, SEGMENT_SIZE).unwrap();
    let n = segment.capacity();
    let mut ptrs = Vec::new();
    for _ in 0..n {
        ptrs.push(segment.alloc_slot().unwrap());
    }
    assert!(segment.is_full());
    assert_eq!(segment.alloc_slot(), None);
    assert!(segment.dealloc(ptrs[0]));
    assert_eq!(segment.alloc_slot(), Some(ptrs[0]));
}

#[test]
fn test_arena_construction() {
    let mapper = FakeMapper::new();
    let arena_result = Arena::new(&mapper, ARENA_INITIAL_SIZE);
    assert!(arena_result.is_ok());
}

#[test]
fn test_arena_insufficient_space() {
    let mapper = FakeMapper::new();
    let arena_result = Arena::new(&mapper, 1);
    assert!(matches!(arena_result, Err(ArenaError::Insufficient)));
}

#[test]
fn arena_hands_out_and_reuses_segments() {
    let mapper = FakeMapper::new();
    let mut arena = Arena::new(&mapper, ARENA_INITIAL_SIZE).unwrap();
    assert_eq!(arena.user_start() % PAGE_SIZE, 0);
    assert!(matches!(Arena::new(&mapper, 0), Err(ArenaError::SizeIsZero)));
    let class = classes()[0];
    let s1 = arena.allocate(&mapper, class).unwrap();
    let s2 = arena.allocate(&mapper, class).unwrap();
    assert_eq!(s1.base(), arena.user_start());
    assert_eq!(s2.base(), arena.user_start() + SEGMENT_SIZE);
    assert_eq!(arena.segment_at(s2.base() + 100), Some(s2.base()));
    assert!(arena.deallocate(&mapper, s1.base()).is_ok());
    assert_eq!(mapper.decommits.load(Ordering::SeqCst), 1);
    assert!(matches!(arena.deallocate(&mapper, s1.base()), Err(ArenaError::Insufficient)));
    assert_eq!(arena.segment_at(s1.base()), None);
    let s3 = arena.allocate(&mapper, class).unwrap();
    assert_eq!(s3.base(), s1.base());
    assert!(arena.has_space());
}

#[test]
fn registry_grows_arena_size_every_four_arenas() {
    let mut registry = Registry::new(FakeMapper::new());
    assert_eq!(registry.next_arena_size(), ARENA_INITIAL_SIZE);
    for _ in 0..5 {
        let arena = registry.create_arena().unwrap();
        registry.add_arena(arena).unwrap();
    }
    assert_eq!(registry.arena_count(), 5);
    assert_eq!(registry.next_arena_size(), ARENA_INITIAL_SIZE * 2);
}

#[test]
fn registry_finds_segments_by_address() {
    let mut registry = Registry::new(FakeMapper::new());
    let class = classes()[5];
    let segment = registry.allocate_segment(class).unwrap();
    assert_eq!(registry.arena_count(), 1);
    assert_eq!(registry.segment_from_ptr(segment.base() + 4000), Some(segment.base()));
    assert_eq!(registry.segment_from_ptr(segment.base() + 8), None);
    assert_eq!(registry.segment_from_ptr(segment.slots()), Some(segment.base()));
    assert_eq!(registry.segment_from_ptr(1), None);
    assert!(registry.deallocate_segment(segment.base()).is_ok());
    assert_eq!(registry.segment_from_ptr(segment.base() + 4000), None);
    assert!(registry.deallocate_segment(segment.base()).is_err());
}

#[test]
fn queue_basic_functionality() {
    let class = classes()[0];
    let queue = Queue::new(class);
    assert!(!queue.has_available(), "New queue should have no available segments");
}

#[test]
fn queue_moves_segments_between_lists() {
    let class = classes()[SIZES - 1];
    let mut registry = Registry::new(FakeMapper::new());
    let mut queue = Queue::new(class);
    let p1 = queue.allocate(&mut registry).unwrap();
    assert_eq!(queue.count(Position::Full), 1);
    assert!(!queue.has_available());
    let p2 = queue.allocate(&mut registry).unwrap();
    assert_ne!(p1, p2);
    assert_eq!(queue.count(Position::Full), 2);
    assert!(queue.deallocate(&mut registry, p1));
    assert_eq!(queue.count(Position::Free), 1);
    assert_eq!(queue.count(Position::Full), 1);
    assert!(queue.has_available());
    assert!(queue.deallocate(&mut registry, p2));
    assert_eq!(queue.count(Position::Free), 2);
    assert!(!queue.deallocate(&mut registry, p2));
    assert_eq!(queue.allocate(&mut registry), Some(p2));
}

#[test]
fn test_empty_remote_list() {
    let heap = Heap::new();
    assert!(!heap.should_free_remote(0));
}

#[test]
fn test_operation_counter_increment() {
    let mut registry = Registry::new(FakeMapper::new());
    let mut heap = Heap::new();
    let initial_ops = heap.operations();
    let _ = heap.allocate(&mut registry, 8, 8);
    assert_eq!(heap.operations(), initial_ops + 1);
}

#[test]
fn test_should_process_remote_logic() {
    let mut registry = Registry::new(FakeMapper::new());
    let mut heap = Heap::new();
    assert!(!heap.should_free_remote(0));
    for _ in 0..REMOTE_CHECK_FREQUENCY {
        let _ = heap.allocate(&mut registry, 8, 8);
    }
    assert_eq!(heap.operations(), REMOTE_CHECK_FREQUENCY);
    assert!(!heap.should_free_remote(0));
    assert!(heap.should_free_remote(1));
}

#[test]
fn remote_frees_due_by_batch_or_frequency() {
    let mut registry = Registry::new(FakeMapper::new());
    let mut heap = Heap::new();
    let _ = heap.allocate(&mut registry, 8, 8);
    assert!(!heap.should_free_remote(5));
    assert!(!heap.should_free_remote(32));
    assert!(heap.should_free_remote(33));
    let mut due_after = None;
    for k in 1..=REMOTE_CHECK_FREQUENCY {
        let _ = heap.allocate(&mut registry, 8, 8);
        if heap.should_free_remote(5) {
            due_after = Some(k);
            break;
        }
    }
    assert_eq!(due_after, Some(REMOTE_CHECK_FREQUENCY - 1));
}

#[test]
fn heap_reuses_freed_slot_first() {
    let mut registry = Registry::new(FakeMapper::new());
    let mut heap = Heap::new();
    let p = heap.allocate(&mut registry, 64, 8).unwrap();
    assert!(heap.deallocate(&mut registry, p, 64, 8).is_ok());
    let q = heap.allocate(&mut registry, 64, 8).unwrap();
    assert_eq!(p, q);
}

#[test]
fn heap_thousand_small_allocations() {
    let mut registry = Registry::new(FakeMapper::new());
    let mut heap = Heap::new();
    let mut ptrs = Vec::new();
    for _ in 0..1000 {
        ptrs.push(heap.allocate(&mut registry, 64, 8).unwrap());
    }
    let mut sorted = ptrs.clone();
    sorted.sort();
    sorted.dedup();
    assert_eq!(sorted.len(), 1000);
    assert!(ptrs.iter().all(|p| p % 8 == 0));
    let slots = heap.queue(7).unwrap().segment(Position::Partial, 0).unwrap().capacity();
    assert_eq!(segment_count(&heap, 7), (1000 + slots - 1) / slots);
}

#[test]
fn heap_large_allocation() {
    let mut registry = Registry::new(FakeMapper::new());
    let mut heap = Heap::new();
    let size = 1 << 20;
    let p = heap.allocate(&mut registry, size, 8).unwrap();
    assert_eq!(heap.large_count(), 1);
    assert_eq!(p % 64, 0);
    assert_eq!(p - p % PAGE_SIZE + 64, p);
    let unmaps = registry.mapper().unmaps.load(Ordering::SeqCst);
    assert!(heap.deallocate(&mut registry, p, size, 8).is_ok());
    assert_eq!(heap.large_count(), 0);
    assert_eq!(registry.mapper().unmaps.load(Ordering::SeqCst), unmaps + 1);
    assert!(matches!(heap.deallocate(&mut registry, p, size, 8), Err(HeapError::InvalidPointer)));
}

#[test]
fn heap_remote_frees_are_reused() {
    let mut registry = Registry::new(FakeMapper::new());
    let mut heap = Heap::new();
    let mut ptrs = Vec::new();
    for _ in 0..100 {
        ptrs.push(heap.allocate(&mut registry, 32, 8).unwrap());
    }
    let before = segment_count(&heap, 3);
    let arenas = registry.arena_count();
    for p in ptrs {
        assert!(heap.deallocate_internal(&mut registry, p, 32, 8).is_ok());
    }
    for _ in 0..100 {
        heap.allocate(&mut registry, 32, 8).unwrap();
    }
    assert_eq!(segment_count(&heap, 3), before);
    assert_eq!(registry.arena_count(), arenas);
}

#[test]
fn heap_rejects_unknown_pointers_and_sizes() {
    let mut registry = Registry::new(FakeMapper::new());
    let mut heap = Heap::new();
    let p = heap.allocate(&mut registry, 24, 8).unwrap();
    assert!(matches!(heap.deallocate(&mut registry, 12345, 24, 8), Err(HeapError::InvalidPointer)));
    assert!(matches!(heap.deallocate(&mut registry, p, 0, 8), Err(HeapError::InvalidSize)));
    assert!(matches!(heap.allocate(&mut registry, 0, 8), Err(HeapError::InvalidSize)));
    assert!(matches!(heap.allocate(&mut registry, 64, 8192), Err(HeapError::InvalidSize)));
    assert!(heap.deallocate(&mut registry, p, 24, 8).is_ok());
    assert!(matches!(heap.deallocate(&mut registry, p, 24, 8), Err(HeapError::InvalidPointer)));
    assert_eq!(segment_count(&heap, 2), 1);
    let big = heap.allocate(&mut registry, LARGE_SC_LIMIT + 1, 8).unwrap();
    assert!(matches!(heap.deallocate(&mut registry, big + PAGE_SIZE, LARGE_SC_LIMIT + 1, 8), Err(HeapError::InvalidPointer)));
    assert!(heap.deallocate(&mut registry, big, LARGE_SC_LIMIT + 1, 8).is_ok());
}

#[test]
fn heap_honours_large_alignments() {
    let mut registry = Registry::new(FakeMapper::new());
    let mut heap = Heap::new();
    assert!(matches!(heap.allocate(&mut registry, 100, 4096), Err(HeapError::InvalidSize)));
    assert!(matches!(heap.allocate(&mut registry, 100, 2048), Err(HeapError::InvalidSize)));
    let size = block_request(100, 4096);
    assert_eq!(size, LARGE_SC_LIMIT + 1);
    let p = heap.allocate(&mut registry, size, 4096).unwrap();
    assert_eq!(p % 4096, 0);
    assert_eq!(heap.large_count(), 1);
    let q = heap.allocate(&mut registry, 1 << 20, 256).unwrap();
    assert_eq!(q % 256, 0);
    let r = heap.allocate(&mut registry, 100, 1024).unwrap();
    assert_eq!(r % 1024, 0);
    assert_eq!(heap.large_count(), 2);
    assert!(heap.deallocate(&mut registry, p, size, 4096).is_ok());
    assert!(heap.deallocate(&mut registry, q, 1 << 20, 256).is_ok());
    assert!(heap.deallocate(&mut registry, r, 100, 1024).is_ok());
    assert_eq!(heap.large_count(), 0)
}

#[test]
fn large_layout_from_mapping() {
    assert!(matches!(Large::place(4096 + 8, 164, 64, 100), Err(LargeError::MapError(MapError::InvalidSize))));
    let l = Large::place(8192, 164, 64, 100).unwrap();
    assert_eq!(l.user_slice(), (8192 + 64, 100));
    assert!(l.from_user_ptr(8192 + 64));
    assert!(!l.from_user_ptr(8192 + 65 + 100));
    let mapper = FakeMapper::new();
    assert!(matches!(Large::new(&mapper, usize::MAX - 10, 8), Err(LargeError::SizeOverflow)));
    assert!(matches!(Large::new(&mapper, 10, 8192), Err(LargeError::MapError(MapError::InvalidSize))));
}

#[test]
fn arena_layout_and_release_steps() {
    assert!(matches!(Arena::layout(0, 256), Err(ArenaError::Insufficient)));
    assert!(matches!(Arena::layout(0, SEGMENT_SIZE), Err(ArenaError::Insufficient)));
    let (header, user_start, user_len, count) = Arena::layout(1 << 32, ARENA_INITIAL_SIZE).unwrap();
    assert_eq!(header, 256);
    assert_eq!(user_start, (1 << 32) + PAGE_SIZE);
    assert_eq!(user_start + user_len, (1 << 32) + ARENA_INITIAL_SIZE);
    assert_eq!(count, 127);
    let mapper = FakeMapper::new();
    let mut arena = Arena::new(&mapper, ARENA_INITIAL_SIZE).unwrap();
    let class = classes()[0];
    assert!(matches!(
        arena.commit_segment(0, class, Err(MapError::ProtectFailed)),
        Err(ArenaError::MapError(MapError::ProtectFailed))
    ));
    let s = arena.allocate(&mapper, class).unwrap();
    assert_eq!(arena.segment_range(0), (s.base(), SEGMENT_SIZE));
    let i = arena.segment_index(s.base()).unwrap();
    assert!(matches!(arena.segment_index(s.base() + 8), Err(ArenaError::Insufficient)));
    assert!(matches!(
        arena.release_segment(i, Err(MapError::DecommitFailed), Ok(())),
        Err(ArenaError::MapError(MapError::DecommitFailed))
    ));
    assert_eq!(arena.segment_at(s.base()), Some(s.base()));
    assert!(arena.release_segment(i, Ok(()), Ok(())).is_ok());
    assert_eq!(arena.segment_at(s.base()), None);
}

#[test]
fn heap_release_and_remote_batch() {
    let mut registry = Registry::new(FakeMapper::new());
    let mut heap = Heap::new();
    let a = heap.allocate(&mut registry, 64, 8).unwrap();
    let b = heap.allocate(&mut registry, 64, 8).unwrap();
    let big = heap.allocate(&mut registry, 1 << 20, 8).unwrap();
    let batch = vec![(a, 64, 8), (big, 1 << 20, 8)];
    assert_eq!(heap.free_remote_batch(&mut registry, &batch), 2);
    assert_eq!(heap.large_count(), 0);
    let c = heap.allocate(&mut registry, 64, 8).unwrap();
    assert_eq!(c, a);
    let _ = b;
    heap.release(&mut registry);
    assert_eq!(segment_count(&heap, 7), 0);
    assert_eq!(registry.segment_from_ptr(c), None);
}

#[test]
fn large_object_page_probe() {
    let l = Large::place(8192, 64 + 8192, 64, 8192).unwrap();
    assert!(l.from_user_ptr(8192 + 64));
    assert!(l.from_user_ptr(8192 + 100));
    assert!(!l.from_user_ptr(8192 + 4096));
    let aligned = Large::place(8192, 4096 + 100, 4096, 100).unwrap();
    assert!(aligned.from_user_ptr(8192 + 4096));
    assert!(!aligned.from_user_ptr(8192 + 4097));
}
