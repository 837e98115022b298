use tinyalloc::classes::{classes, find_class, size_to_align, Class};
use tinyalloc::config::{align_slice, align_up, LARGE_SC_LIMIT, SIZES};
use tinyalloc::header::{
    aligned_alloc_accepts, calculate_total_layout, calculate_user_size, header_addr,
    posix_memalign_accepts, realloc_copy_size, realloc_in_place, trailer_addr, validate, Metadata,
    Trailer, METADATA_CANARY, TRAILER_CANARY,
};
use tinyalloc::mapper::{cache_line_size, page_align, page_align_ptr, page_size, Permissions, Protection};
use tinyalloc::metrics::{category_of, MetricId, Metrics, METRIC_COUNT};

#[test]
fn class_table_shape() {
    let table = classes();
    assert_eq!(table.len(), SIZES);
    for (i, c) in table.iter().enumerate() {
        assert_eq!(c.id, i);
        assert!(c.align.0.is_power_of_two());
        assert!(c.align.0 >= 8);
        assert_eq!(c.size.0 % c.align.0, 0);
        if i > 0 {
            assert!(table[i - 1].size.0 < c.size.0);
        }
    }
    assert_eq!(table[0], Class::new(8, 8, 0));
    assert_eq!(table[7], Class::new(64, 8, 7));
    assert_eq!(table[8], Class::new(128, 64, 8));
    assert_eq!(table[17], Class::new(2048, 1024, 17));
    assert_eq!(table[SIZES - 1].size.0, LARGE_SC_LIMIT);
    assert_eq!(size_to_align(64), 8);
    assert_eq!(size_to_align(65), 64);
    assert_eq!(size_to_align(2000), 1024);
    assert_eq!(size_to_align(1 << 20), 1 << 17);
}

#[test]
fn find_class_picks_smallest_fit() {
    let table = classes();
    assert_eq!(find_class(&table, 0, 8), None);
    assert_eq!(find_class(&table, 1, 1).unwrap().id, 0);
    assert_eq!(find_class(&table, 64, 8).unwrap().id, 7);
    assert_eq!(find_class(&table, 65, 8).unwrap().id, 8);
    assert_eq!(find_class(&table, 8, 16).unwrap().id, 8);
    assert_eq!(find_class(&table, 300, 8).unwrap().size.0, 320);
    assert_eq!(find_class(&table, LARGE_SC_LIMIT, 8).unwrap().id, SIZES - 1);
    assert_eq!(find_class(&table, LARGE_SC_LIMIT + 1, 8), None);
    assert_eq!(find_class(&table, 8, 2048), None);
}

#[test]
fn segmentation_of_a_span() {
    let class = classes()[0];
    let parts = class.segment(1000, 10000);
    assert_eq!(parts.bitmap_start, 1000);
    assert_eq!(parts.bitmap_words, (10000 / 8 + 63) / 64);
    assert_eq!(parts.rest_start, 1000 + parts.bitmap_words * 8);
    assert_eq!(parts.rest_start + parts.rest_len, 11000);
}

#[test]
fn rounding_helpers() {
    assert_eq!(align_up(13, 8), 16);
    assert_eq!(align_up(16, 8), 16);
    assert_eq!(align_up(10, 3), 12);
    assert_eq!(align_up(5, 1), 5);
    assert_eq!(align_up(5, 0), 5);
    assert_eq!(align_up(usize::MAX, 8), usize::MAX - 7);
    assert_eq!(align_slice(100, 50, 64), (128, 22));
    assert_eq!(align_slice(100, 20, 64), (120, 0));
    assert_eq!(align_slice(100, 20, 1), (100, 20));
    assert_eq!(page_size(), 4096);
    assert_eq!(cache_line_size(), 64);
    assert_eq!(page_align(1), Some(4096));
    assert_eq!(page_align(4096), Some(4096));
    assert_eq!(page_align(usize::MAX), None);
    assert_eq!(page_align_ptr(8191), 4096);
    assert!(Permissions::read_write().contains(Protection::Write));
    assert!(Permissions::none().is_empty());
}

#[test]
fn c_header_layout() {
    assert_eq!(calculate_total_layout(0, 8), Some((8, 8, 0)));
    assert_eq!(calculate_total_layout(100, 8), Some((156, 8, 48)));
    assert_eq!(calculate_total_layout(100, 4096), Some((4204, 4096, 4096)));
    assert_eq!(calculate_total_layout(usize::MAX / 2, 8), None);
    assert_eq!(calculate_user_size(172, 64), 100);
    assert_eq!(calculate_user_size(10, 64), 0);
    assert_eq!(header_addr(4096 + 64, 64), Some(4096));
    assert_eq!(header_addr(4096 + 64, 0), None);
    assert_eq!(header_addr(4096 + 63, 63), None);
    assert_eq!(header_addr(4, 4), None);
    assert_eq!(header_addr(4096 + 48, 48), Some(4096));
    assert_eq!(header_addr(4096 + 48, 4096 + 49), None);
    assert_eq!(trailer_addr(4096 + 64, 101), Some(4096 + 168));
    assert_eq!(trailer_addr(usize::MAX, 1), None);
}

#[test]
fn c_header_canaries() {
    let m = Metadata::new(4096, 172, 64, 64, 8);
    let t = Trailer::new(64);
    assert_eq!(m.canary, METADATA_CANARY);
    assert_eq!(t.canary, TRAILER_CANARY);
    assert!(validate(&m, &t));
    let mut bad = m;
    bad.canary = 0;
    assert!(!validate(&bad, &t));
    assert!(!validate(&m, &Trailer::new(65)));
    let mut bad_back = t;
    bad_back.canary = 1;
    assert!(!validate(&m, &bad_back));
    assert!(!Metadata::new(0, 172, 64, 64, 8).is_valid());
}

#[test]
fn c_interface_checks() {
    assert!(aligned_alloc_accepts(16, 32));
    assert!(!aligned_alloc_accepts(24, 48));
    assert!(!aligned_alloc_accepts(16, 20));
    assert!(!aligned_alloc_accepts(0, 0));
    assert!(posix_memalign_accepts(16));
    assert!(!posix_memalign_accepts(4));
    assert!(!posix_memalign_accepts(12));
    assert!(realloc_in_place(100, 64));
    assert!(!realloc_in_place(100, 101));
    assert_eq!(realloc_copy_size(100, 40), 40);
    assert_eq!(realloc_copy_size(40, 100), 40);
}

#[test]
fn metric_names_and_counters() {
    assert_eq!(MetricId::ArenaNew.name(), "arena_new");
    assert_eq!(MetricId::ArenaNew.category(), "Arena");
    assert_eq!(MetricId::ErrorMapError.name(), "error_map_error");
    assert_eq!(MetricId::ErrorMapError.index(), 99);
    assert_eq!(MetricId::ErrorMapError.category(), "Error");
    assert_eq!(MetricId::SegmentNew.category(), "Segment");
    assert_eq!(category_of(200), "Unknown");
    let mut metrics = Metrics::new();
    metrics.record_metric(MetricId::SegmentNew);
    metrics.record_metric_count(MetricId::SegmentNew, 4);
    assert_eq!(metrics.get_metric(MetricId::SegmentNew), 5);
    assert_eq!(metrics.get_metric(MetricId::ArenaNew), 0);
    metrics.start_summary();
    assert_eq!(metrics.get_metric(MetricId::SegmentNew), 0);
    assert_eq!(METRIC_COUNT, 100);
}
