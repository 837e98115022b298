//! Counters of allocator events, and the names and categories they report under.
use vstd::prelude::*;

verus! {

/// Number of metrics.
pub const METRIC_COUNT: usize = 100;

/// An allocator event that can be counted.
#[derive(Debug, Clone, Copy, PartialEq, Eq, Structural)]
pub enum MetricId {
    ArenaNew,
    ArenaAllocate,
    ArenaAllocateSuccess,
    ArenaAllocateFail,
    ArenaDeallocate,
    ArenaDeallocateSuccess,
    ArenaDeallocateFail,
    ArenaHasSpace,
    ArenaHasSpaceTrue,
    ArenaHasSpaceFalse,
    ArenaCacheHit,
    ArenaCacheMiss,
    ArenaSegmentActivation,
    ArenaSegmentDeactivation,
    ArenaBitmapOperations,
    SegmentNew,
    SegmentNewSuccess,
    SegmentNewFail,
    SegmentAlloc,
    SegmentAllocSuccess,
    SegmentAllocFail,
    SegmentDealloc,
    SegmentDeallocSuccess,
    SegmentDeallocFail,
    SegmentStateTransitionFreeToPartial,
    SegmentStateTransitionPartialToFull,
    SegmentStateTransitionFullToPartial,
    SegmentStateTransitionPartialToFree,
    SegmentCacheHit,
    SegmentCacheMiss,
    SegmentPtrLookup,
    SegmentPtrLookupSuccess,
    SegmentPtrLookupFail,
    SegmentBitmapSet,
    SegmentBitmapClear,
    QueueAllocate,
    QueueAllocateSuccess,
    QueueAllocateFail,
    QueueDeallocate,
    QueueDeallocateSuccess,
    QueueDeallocateFail,
    QueueSegmentDisplace,
    QueueTrimFreeSegments,
    QueueTrimSegmentsRemoved,
    QueueGetAvailable,
    QueueGetAvailableFromFree,
    QueueGetAvailableFromPartial,
    QueueGetAvailableNone,
    QueueAddSegment,
    QueueNewSegmentCreated,
    HeapAllocate,
    HeapAllocateSuccess,
    HeapAllocateFail,
    HeapDeallocate,
    HeapDeallocateSuccess,
    HeapDeallocateFail,
    HeapAllocSmall,
    HeapAllocLarge,
    HeapDeallocSmall,
    HeapDeallocLarge,
    HeapRemoteProcessing,
    HeapRemoteBatched,
    HeapRemoteSkipped,
    HeapOperationsCounter,
    HeapClassLookup,
    HeapClassLookupSuccess,
    HeapClassLookupFail,
    HeapInvalidSize,
    HeapInvalidPointer,
    HeapThreadMismatch,
    StaticCreateArena,
    StaticCreateArenaSuccess,
    StaticCreateArenaFail,
    StaticAddArena,
    StaticAddArenaSuccess,
    StaticAddArenaFail,
    StaticSegmentLookup,
    StaticSegmentLookupSuccess,
    StaticSegmentLookupFail,
    StaticArenaGrowth,
    SizeClassSmall,
    SizeClassMedium,
    SizeClassLarge,
    SizeClassHuge,
    SizeClassPerfectFit,
    SizeClassWaste,
    SizeClass0To7,
    SizeClass8To15,
    SizeClass16To31,
    SizeClass32To47,
    SizeClass48To63,
    SizeClass64To79,
    SizeClass80Plus,
    SizeClassUtilizationHigh,
    SizeClassUtilizationLow,
    ErrorInsufficientMemory,
    ErrorInvalidPointer,
    ErrorBitmapError,
    ErrorSegmentError,
    ErrorMapError,
}

impl MetricId {
    /// Position of the metric among all metrics.
    pub open spec fn spec_index(self) -> int {
        match self {
            MetricId::ArenaNew => 0,
            MetricId::ArenaAllocate => 1,
            MetricId::ArenaAllocateSuccess => 2,
            MetricId::ArenaAllocateFail => 3,
            MetricId::ArenaDeallocate => 4,
            MetricId::ArenaDeallocateSuccess => 5,
            MetricId::ArenaDeallocateFail => 6,
            MetricId::ArenaHasSpace => 7,
            MetricId::ArenaHasSpaceTrue => 8,
            MetricId::ArenaHasSpaceFalse => 9,
            MetricId::ArenaCacheHit => 10,
            MetricId::ArenaCacheMiss => 11,
            MetricId::ArenaSegmentActivation => 12,
            MetricId::ArenaSegmentDeactivation => 13,
            MetricId::ArenaBitmapOperations => 14,
            MetricId::SegmentNew => 15,
            MetricId::SegmentNewSuccess => 16,
            MetricId::SegmentNewFail => 17,
            MetricId::SegmentAlloc => 18,
            MetricId::SegmentAllocSuccess => 19,
            MetricId::SegmentAllocFail => 20,
            MetricId::SegmentDealloc => 21,
            MetricId::SegmentDeallocSuccess => 22,
            MetricId::SegmentDeallocFail => 23,
            MetricId::SegmentStateTransitionFreeToPartial => 24,
            MetricId::SegmentStateTransitionPartialToFull => 25,
            MetricId::SegmentStateTransitionFullToPartial => 26,
            MetricId::SegmentStateTransitionPartialToFree => 27,
            MetricId::SegmentCacheHit => 28,
            MetricId::SegmentCacheMiss => 29,
            MetricId::SegmentPtrLookup => 30,
            MetricId::SegmentPtrLookupSuccess => 31,
            MetricId::SegmentPtrLookupFail => 32,
            MetricId::SegmentBitmapSet => 33,
            MetricId::SegmentBitmapClear => 34,
            MetricId::QueueAllocate => 35,
            MetricId::QueueAllocateSuccess => 36,
            MetricId::QueueAllocateFail => 37,
            MetricId::QueueDeallocate => 38,
            MetricId::QueueDeallocateSuccess => 39,
            MetricId::QueueDeallocateFail => 40,
            MetricId::QueueSegmentDisplace => 41,
            MetricId::QueueTrimFreeSegments => 42,
            MetricId::QueueTrimSegmentsRemoved => 43,
            MetricId::QueueGetAvailable => 44,
            MetricId::QueueGetAvailableFromFree => 45,
            MetricId::QueueGetAvailableFromPartial => 46,
            MetricId::QueueGetAvailableNone => 47,
            MetricId::QueueAddSegment => 48,
            MetricId::QueueNewSegmentCreated => 49,
            MetricId::HeapAllocate => 50,
            MetricId::HeapAllocateSuccess => 51,
            MetricId::HeapAllocateFail => 52,
            MetricId::HeapDeallocate => 53,
            MetricId::HeapDeallocateSuccess => 54,
            MetricId::HeapDeallocateFail => 55,
            MetricId::HeapAllocSmall => 56,
            MetricId::HeapAllocLarge => 57,
            MetricId::HeapDeallocSmall => 58,
            MetricId::HeapDeallocLarge => 59,
            MetricId::HeapRemoteProcessing => 60,
            MetricId::HeapRemoteBatched => 61,
            MetricId::HeapRemoteSkipped => 62,
            MetricId::HeapOperationsCounter => 63,
            MetricId::HeapClassLookup => 64,
            MetricId::HeapClassLookupSuccess => 65,
            MetricId::HeapClassLookupFail => 66,
            MetricId::HeapInvalidSize => 67,
            MetricId::HeapInvalidPointer => 68,
            MetricId::HeapThreadMismatch => 69,
            MetricId::StaticCreateArena => 70,
            MetricId::StaticCreateArenaSuccess => 71,
            MetricId::StaticCreateArenaFail => 72,
            MetricId::StaticAddArena => 73,
            MetricId::StaticAddArenaSuccess => 74,
            MetricId::StaticAddArenaFail => 75,
            MetricId::StaticSegmentLookup => 76,
            MetricId::StaticSegmentLookupSuccess => 77,
            MetricId::StaticSegmentLookupFail => 78,
            MetricId::StaticArenaGrowth => 79,
            MetricId::SizeClassSmall => 80,
            MetricId::SizeClassMedium => 81,
            MetricId::SizeClassLarge => 82,
            MetricId::SizeClassHuge => 83,
            MetricId::SizeClassPerfectFit => 84,
            MetricId::SizeClassWaste => 85,
            MetricId::SizeClass0To7 => 86,
            MetricId::SizeClass8To15 => 87,
            MetricId::SizeClass16To31 => 88,
            MetricId::SizeClass32To47 => 89,
            MetricId::SizeClass48To63 => 90,
            MetricId::SizeClass64To79 => 91,
            MetricId::SizeClass80Plus => 92,
            MetricId::SizeClassUtilizationHigh => 93,
            MetricId::SizeClassUtilizationLow => 94,
            MetricId::ErrorInsufficientMemory => 95,
            MetricId::ErrorInvalidPointer => 96,
            MetricId::ErrorBitmapError => 97,
            MetricId::ErrorSegmentError => 98,
            MetricId::ErrorMapError => 99,
        }
    }

    /// Position of the metric among all metrics.
    pub fn index(self) -> (r: usize)
        ensures
            r == self.spec_index(),
            r < METRIC_COUNT,
    {
        match self {
            MetricId::ArenaNew => 0,
            MetricId::ArenaAllocate => 1,
            MetricId::ArenaAllocateSuccess => 2,
            MetricId::ArenaAllocateFail => 3,
            MetricId::ArenaDeallocate => 4,
            MetricId::ArenaDeallocateSuccess => 5,
            MetricId::ArenaDeallocateFail => 6,
            MetricId::ArenaHasSpace => 7,
            MetricId::ArenaHasSpaceTrue => 8,
            MetricId::ArenaHasSpaceFalse => 9,
            MetricId::ArenaCacheHit => 10,
            MetricId::ArenaCacheMiss => 11,
            MetricId::ArenaSegmentActivation => 12,
            MetricId::ArenaSegmentDeactivation => 13,
            MetricId::ArenaBitmapOperations => 14,
            MetricId::SegmentNew => 15,
            MetricId::SegmentNewSuccess => 16,
            MetricId::SegmentNewFail => 17,
            MetricId::SegmentAlloc => 18,
            MetricId::SegmentAllocSuccess => 19,
            MetricId::SegmentAllocFail => 20,
            MetricId::SegmentDealloc => 21,
            MetricId::SegmentDeallocSuccess => 22,
            MetricId::SegmentDeallocFail => 23,
            MetricId::SegmentStateTransitionFreeToPartial => 24,
            MetricId::SegmentStateTransitionPartialToFull => 25,
            MetricId::SegmentStateTransitionFullToPartial => 26,
            MetricId::SegmentStateTransitionPartialToFree => 27,
            MetricId::SegmentCacheHit => 28,
            MetricId::SegmentCacheMiss => 29,
            MetricId::SegmentPtrLookup => 30,
            MetricId::SegmentPtrLookupSuccess => 31,
            MetricId::SegmentPtrLookupFail => 32,
            MetricId::SegmentBitmapSet => 33,
            MetricId::SegmentBitmapClear => 34,
            MetricId::QueueAllocate => 35,
            MetricId::QueueAllocateSuccess => 36,
            MetricId::QueueAllocateFail => 37,
            MetricId::QueueDeallocate => 38,
            MetricId::QueueDeallocateSuccess => 39,
            MetricId::QueueDeallocateFail => 40,
            MetricId::QueueSegmentDisplace => 41,
            MetricId::QueueTrimFreeSegments => 42,
            MetricId::QueueTrimSegmentsRemoved => 43,
            MetricId::QueueGetAvailable => 44,
            MetricId::QueueGetAvailableFromFree => 45,
            MetricId::QueueGetAvailableFromPartial => 46,
            MetricId::QueueGetAvailableNone => 47,
            MetricId::QueueAddSegment => 48,
            MetricId::QueueNewSegmentCreated => 49,
            MetricId::HeapAllocate => 50,
            MetricId::HeapAllocateSuccess => 51,
            MetricId::HeapAllocateFail => 52,
            MetricId::HeapDeallocate => 53,
            MetricId::HeapDeallocateSuccess => 54,
            MetricId::HeapDeallocateFail => 55,
            MetricId::HeapAllocSmall => 56,
            MetricId::HeapAllocLarge => 57,
            MetricId::HeapDeallocSmall => 58,
            MetricId::HeapDeallocLarge => 59,
            MetricId::HeapRemoteProcessing => 60,
            MetricId::HeapRemoteBatched => 61,
            MetricId::HeapRemoteSkipped => 62,
            MetricId::HeapOperationsCounter => 63,
            MetricId::HeapClassLookup => 64,
            MetricId::HeapClassLookupSuccess => 65,
            MetricId::HeapClassLookupFail => 66,
            MetricId::HeapInvalidSize => 67,
            MetricId::HeapInvalidPointer => 68,
            MetricId::HeapThreadMismatch => 69,
            MetricId::StaticCreateArena => 70,
            MetricId::StaticCreateArenaSuccess => 71,
            MetricId::StaticCreateArenaFail => 72,
            MetricId::StaticAddArena => 73,
            MetricId::StaticAddArenaSuccess => 74,
            MetricId::StaticAddArenaFail => 75,
            MetricId::StaticSegmentLookup => 76,
            MetricId::StaticSegmentLookupSuccess => 77,
            MetricId::StaticSegmentLookupFail => 78,
            MetricId::StaticArenaGrowth => 79,
            MetricId::SizeClassSmall => 80,
            MetricId::SizeClassMedium => 81,
            MetricId::SizeClassLarge => 82,
            MetricId::SizeClassHuge => 83,
            MetricId::SizeClassPerfectFit => 84,
            MetricId::SizeClassWaste => 85,
            MetricId::SizeClass0To7 => 86,
            MetricId::SizeClass8To15 => 87,
            MetricId::SizeClass16To31 => 88,
            MetricId::SizeClass32To47 => 89,
            MetricId::SizeClass48To63 => 90,
            MetricId::SizeClass64To79 => 91,
            MetricId::SizeClass80Plus => 92,
            MetricId::SizeClassUtilizationHigh => 93,
            MetricId::SizeClassUtilizationLow => 94,
            MetricId::ErrorInsufficientMemory => 95,
            MetricId::ErrorInvalidPointer => 96,
            MetricId::ErrorBitmapError => 97,
            MetricId::ErrorSegmentError => 98,
            MetricId::ErrorMapError => 99,
        }
    }

    /// The metric at position `index`, if there is one.
    pub fn from_index(index: usize) -> (r: Option<MetricId>)
        ensures
            index < METRIC_COUNT ==> (r matches Some(id) && id.spec_index() == index),
            index >= METRIC_COUNT ==> r is None,
    {
        match index {
            0 => Some(MetricId::ArenaNew),
            1 => Some(MetricId::ArenaAllocate),
            2 => Some(MetricId::ArenaAllocateSuccess),
            3 => Some(MetricId::ArenaAllocateFail),
            4 => Some(MetricId::ArenaDeallocate),
            5 => Some(MetricId::ArenaDeallocateSuccess),
            6 => Some(MetricId::ArenaDeallocateFail),
            7 => Some(MetricId::ArenaHasSpace),
            8 => Some(MetricId::ArenaHasSpaceTrue),
            9 => Some(MetricId::ArenaHasSpaceFalse),
            10 => Some(MetricId::ArenaCacheHit),
            11 => Some(MetricId::ArenaCacheMiss),
            12 => Some(MetricId::ArenaSegmentActivation),
            13 => Some(MetricId::ArenaSegmentDeactivation),
            14 => Some(MetricId::ArenaBitmapOperations),
            15 => Some(MetricId::SegmentNew),
            16 => Some(MetricId::SegmentNewSuccess),
            17 => Some(MetricId::SegmentNewFail),
            18 => Some(MetricId::SegmentAlloc),
            19 => Some(MetricId::SegmentAllocSuccess),
            20 => Some(MetricId::SegmentAllocFail),
            21 => Some(MetricId::SegmentDealloc),
            22 => Some(MetricId::SegmentDeallocSuccess),
            23 => Some(MetricId::SegmentDeallocFail),
            24 => Some(MetricId::SegmentStateTransitionFreeToPartial),
            25 => Some(MetricId::SegmentStateTransitionPartialToFull),
            26 => Some(MetricId::SegmentStateTransitionFullToPartial),
            27 => Some(MetricId::SegmentStateTransitionPartialToFree),
            28 => Some(MetricId::SegmentCacheHit),
            29 => Some(MetricId::SegmentCacheMiss),
            30 => Some(MetricId::SegmentPtrLookup),
            31 => Some(MetricId::SegmentPtrLookupSuccess),
            32 => Some(MetricId::SegmentPtrLookupFail),
            33 => Some(MetricId::SegmentBitmapSet),
            34 => Some(MetricId::SegmentBitmapClear),
            35 => Some(MetricId::QueueAllocate),
            36 => Some(MetricId::QueueAllocateSuccess),
            37 => Some(MetricId::QueueAllocateFail),
            38 => Some(MetricId::QueueDeallocate),
            39 => Some(MetricId::QueueDeallocateSuccess),
            40 => Some(MetricId::QueueDeallocateFail),
            41 => Some(MetricId::QueueSegmentDisplace),
            42 => Some(MetricId::QueueTrimFreeSegments),
            43 => Some(MetricId::QueueTrimSegmentsRemoved),
            44 => Some(MetricId::QueueGetAvailable),
            45 => Some(MetricId::QueueGetAvailableFromFree),
            46 => Some(MetricId::QueueGetAvailableFromPartial),
            47 => Some(MetricId::QueueGetAvailableNone),
            48 => Some(MetricId::QueueAddSegment),
            49 => Some(MetricId::QueueNewSegmentCreated),
            50 => Some(MetricId::HeapAllocate),
            51 => Some(MetricId::HeapAllocateSuccess),
            52 => Some(MetricId::HeapAllocateFail),
            53 => Some(MetricId::HeapDeallocate),
            54 => Some(MetricId::HeapDeallocateSuccess),
            55 => Some(MetricId::HeapDeallocateFail),
            56 => Some(MetricId::HeapAllocSmall),
            57 => Some(MetricId::HeapAllocLarge),
            58 => Some(MetricId::HeapDeallocSmall),
            59 => Some(MetricId::HeapDeallocLarge),
            60 => Some(MetricId::HeapRemoteProcessing),
            61 => Some(MetricId::HeapRemoteBatched),
            62 => Some(MetricId::HeapRemoteSkipped),
            63 => Some(MetricId::HeapOperationsCounter),
            64 => Some(MetricId::HeapClassLookup),
            65 => Some(MetricId::HeapClassLookupSuccess),
            66 => Some(MetricId::HeapClassLookupFail),
            67 => Some(MetricId::HeapInvalidSize),
            68 => Some(MetricId::HeapInvalidPointer),
            69 => Some(MetricId::HeapThreadMismatch),
            70 => Some(MetricId::StaticCreateArena),
            71 => Some(MetricId::StaticCreateArenaSuccess),
            72 => Some(MetricId::StaticCreateArenaFail),
            73 => Some(MetricId::StaticAddArena),
            74 => Some(MetricId::StaticAddArenaSuccess),
            75 => Some(MetricId::StaticAddArenaFail),
            76 => Some(MetricId::StaticSegmentLookup),
            77 => Some(MetricId::StaticSegmentLookupSuccess),
            78 => Some(MetricId::StaticSegmentLookupFail),
            79 => Some(MetricId::StaticArenaGrowth),
            80 => Some(MetricId::SizeClassSmall),
            81 => Some(MetricId::SizeClassMedium),
            82 => Some(MetricId::SizeClassLarge),
            83 => Some(MetricId::SizeClassHuge),
            84 => Some(MetricId::SizeClassPerfectFit),
            85 => Some(MetricId::SizeClassWaste),
            86 => Some(MetricId::SizeClass0To7),
            87 => Some(MetricId::SizeClass8To15),
            88 => Some(MetricId::SizeClass16To31),
            89 => Some(MetricId::SizeClass32To47),
            90 => Some(MetricId::SizeClass48To63),
            91 => Some(MetricId::SizeClass64To79),
            92 => Some(MetricId::SizeClass80Plus),
            93 => Some(MetricId::SizeClassUtilizationHigh),
            94 => Some(MetricId::SizeClassUtilizationLow),
            95 => Some(MetricId::ErrorInsufficientMemory),
            96 => Some(MetricId::ErrorInvalidPointer),
            97 => Some(MetricId::ErrorBitmapError),
            98 => Some(MetricId::ErrorSegmentError),
            99 => Some(MetricId::ErrorMapError),
            _ => None,
        }
    }

    /// The name the metric reports under.
    pub open spec fn spec_name(self) -> Seq<char> {
        match self {
            MetricId::ArenaNew => "arena_new"@,
            MetricId::ArenaAllocate => "arena_allocate"@,
            MetricId::ArenaAllocateSuccess => "arena_allocate_success"@,
            MetricId::ArenaAllocateFail => "arena_allocate_fail"@,
            MetricId::ArenaDeallocate => "arena_deallocate"@,
            MetricId::ArenaDeallocateSuccess => "arena_deallocate_success"@,
            MetricId::ArenaDeallocateFail => "arena_deallocate_fail"@,
            MetricId::ArenaHasSpace => "arena_has_space"@,
            MetricId::ArenaHasSpaceTrue => "arena_has_space_true"@,
            MetricId::ArenaHasSpaceFalse => "arena_has_space_false"@,
            MetricId::ArenaCacheHit => "arena_cache_hit"@,
            MetricId::ArenaCacheMiss => "arena_cache_miss"@,
            MetricId::ArenaSegmentActivation => "arena_segment_activation"@,
            MetricId::ArenaSegmentDeactivation => "arena_segment_deactivation"@,
            MetricId::ArenaBitmapOperations => "arena_bitmap_operations"@,
            MetricId::SegmentNew => "segment_new"@,
            MetricId::SegmentNewSuccess => "segment_new_success"@,
            MetricId::SegmentNewFail => "segment_new_fail"@,
            MetricId::SegmentAlloc => "segment_alloc"@,
            MetricId::SegmentAllocSuccess => "segment_alloc_success"@,
            MetricId::SegmentAllocFail => "segment_alloc_fail"@,
            MetricId::SegmentDealloc => "segment_dealloc"@,
            MetricId::SegmentDeallocSuccess => "segment_dealloc_success"@,
            MetricId::SegmentDeallocFail => "segment_dealloc_fail"@,
            MetricId::SegmentStateTransitionFreeToPartial => "segment_free_to_partial"@,
            MetricId::SegmentStateTransitionPartialToFull => "segment_partial_to_full"@,
            MetricId::SegmentStateTransitionFullToPartial => "segment_full_to_partial"@,
            MetricId::SegmentStateTransitionPartialToFree => "segment_partial_to_free"@,
            MetricId::SegmentCacheHit => "segment_cache_hit"@,
            MetricId::SegmentCacheMiss => "segment_cache_miss"@,
            MetricId::SegmentPtrLookup => "segment_ptr_lookup"@,
            MetricId::SegmentPtrLookupSuccess => "segment_ptr_lookup_success"@,
            MetricId::SegmentPtrLookupFail => "segment_ptr_lookup_fail"@,
            MetricId::SegmentBitmapSet => "segment_bitmap_set"@,
            MetricId::SegmentBitmapClear => "segment_bitmap_clear"@,
            MetricId::QueueAllocate => "queue_allocate"@,
            MetricId::QueueAllocateSuccess => "queue_allocate_success"@,
            MetricId::QueueAllocateFail => "queue_allocate_fail"@,
            MetricId::QueueDeallocate => "queue_deallocate"@,
            MetricId::QueueDeallocateSuccess => "queue_deallocate_success"@,
            MetricId::QueueDeallocateFail => "queue_deallocate_fail"@,
            MetricId::QueueSegmentDisplace => "queue_segment_displace"@,
            MetricId::QueueTrimFreeSegments => "queue_trim_free_segments"@,
            MetricId::QueueTrimSegmentsRemoved => "queue_trim_segments_removed"@,
            MetricId::QueueGetAvailable => "queue_get_available"@,
            MetricId::QueueGetAvailableFromFree => "queue_get_available_from_free"@,
            MetricId::QueueGetAvailableFromPartial => "queue_get_available_from_partial"@,
            MetricId::QueueGetAvailableNone => "queue_get_available_none"@,
            MetricId::QueueAddSegment => "queue_add_segment"@,
            MetricId::QueueNewSegmentCreated => "queue_new_segment_created"@,
            MetricId::HeapAllocate => "heap_allocate"@,
            MetricId::HeapAllocateSuccess => "heap_allocate_success"@,
            MetricId::HeapAllocateFail => "heap_allocate_fail"@,
            MetricId::HeapDeallocate => "heap_deallocate"@,
            MetricId::HeapDeallocateSuccess => "heap_deallocate_success"@,
            MetricId::HeapDeallocateFail => "heap_deallocate_fail"@,
            MetricId::HeapAllocSmall => "heap_alloc_small"@,
            MetricId::HeapAllocLarge => "heap_alloc_large"@,
            MetricId::HeapDeallocSmall => "heap_dealloc_small"@,
            MetricId::HeapDeallocLarge => "heap_dealloc_large"@,
            MetricId::HeapRemoteProcessing => "heap_remote_processing"@,
            MetricId::HeapRemoteBatched => "heap_remote_batched"@,
            MetricId::HeapRemoteSkipped => "heap_remote_skipped"@,
            MetricId::HeapOperationsCounter => "heap_operations_counter"@,
            MetricId::HeapClassLookup => "heap_class_lookup"@,
            MetricId::HeapClassLookupSuccess => "heap_class_lookup_success"@,
            MetricId::HeapClassLookupFail => "heap_class_lookup_fail"@,
            MetricId::HeapInvalidSize => "heap_invalid_size"@,
            MetricId::HeapInvalidPointer => "heap_invalid_pointer"@,
            MetricId::HeapThreadMismatch => "heap_thread_mismatch"@,
            MetricId::StaticCreateArena => "static_create_arena"@,
            MetricId::StaticCreateArenaSuccess => "static_create_arena_success"@,
            MetricId::StaticCreateArenaFail => "static_create_arena_fail"@,
            MetricId::StaticAddArena => "static_add_arena"@,
            MetricId::StaticAddArenaSuccess => "static_add_arena_success"@,
            MetricId::StaticAddArenaFail => "static_add_arena_fail"@,
            MetricId::StaticSegmentLookup => "static_segment_lookup"@,
            MetricId::StaticSegmentLookupSuccess => "static_segment_lookup_success"@,
            MetricId::StaticSegmentLookupFail => "static_segment_lookup_fail"@,
            MetricId::StaticArenaGrowth => "static_arena_growth"@,
            MetricId::SizeClassSmall => "size_class_small"@,
            MetricId::SizeClassMedium => "size_class_medium"@,
            MetricId::SizeClassLarge => "size_class_large"@,
            MetricId::SizeClassHuge => "size_class_huge"@,
            MetricId::SizeClassPerfectFit => "size_class_perfect_fit"@,
            MetricId::SizeClassWaste => "size_class_waste"@,
            MetricId::SizeClass0To7 => "size_class_0_to_7"@,
            MetricId::SizeClass8To15 => "size_class_8_to_15"@,
            MetricId::SizeClass16To31 => "size_class_16_to_31"@,
            MetricId::SizeClass32To47 => "size_class_32_to_47"@,
            MetricId::SizeClass48To63 => "size_class_48_to_63"@,
            MetricId::SizeClass64To79 => "size_class_64_to_79"@,
            MetricId::SizeClass80Plus => "size_class_80_plus"@,
            MetricId::SizeClassUtilizationHigh => "size_class_utilization_high"@,
            MetricId::SizeClassUtilizationLow => "size_class_utilization_low"@,
            MetricId::ErrorInsufficientMemory => "error_insufficient_memory"@,
            MetricId::ErrorInvalidPointer => "error_invalid_pointer"@,
            MetricId::ErrorBitmapError => "error_bitmap_error"@,
            MetricId::ErrorSegmentError => "error_segment_error"@,
            MetricId::ErrorMapError => "error_map_error"@,
        }
    }

    /// The name the metric reports under.
    pub fn name(self) -> (r: &'static str)
        ensures
            r@ == self.spec_name(),
    {
        match self {
            MetricId::ArenaNew => "arena_new",
            MetricId::ArenaAllocate => "arena_allocate",
            MetricId::ArenaAllocateSuccess => "arena_allocate_success",
            MetricId::ArenaAllocateFail => "arena_allocate_fail",
            MetricId::ArenaDeallocate => "arena_deallocate",
            MetricId::ArenaDeallocateSuccess => "arena_deallocate_success",
            MetricId::ArenaDeallocateFail => "arena_deallocate_fail",
            MetricId::ArenaHasSpace => "arena_has_space",
            MetricId::ArenaHasSpaceTrue => "arena_has_space_true",
            MetricId::ArenaHasSpaceFalse => "arena_has_space_false",
            MetricId::ArenaCacheHit => "arena_cache_hit",
            MetricId::ArenaCacheMiss => "arena_cache_miss",
            MetricId::ArenaSegmentActivation => "arena_segment_activation",
            MetricId::ArenaSegmentDeactivation => "arena_segment_deactivation",
            MetricId::ArenaBitmapOperations => "arena_bitmap_operations",
            MetricId::SegmentNew => "segment_new",
            MetricId::SegmentNewSuccess => "segment_new_success",
            MetricId::SegmentNewFail => "segment_new_fail",
            MetricId::SegmentAlloc => "segment_alloc",
            MetricId::SegmentAllocSuccess => "segment_alloc_success",
            MetricId::SegmentAllocFail => "segment_alloc_fail",
            MetricId::SegmentDealloc => "segment_dealloc",
            MetricId::SegmentDeallocSuccess => "segment_dealloc_success",
            MetricId::SegmentDeallocFail => "segment_dealloc_fail",
            MetricId::SegmentStateTransitionFreeToPartial => "segment_free_to_partial",
            MetricId::SegmentStateTransitionPartialToFull => "segment_partial_to_full",
            MetricId::SegmentStateTransitionFullToPartial => "segment_full_to_partial",
            MetricId::SegmentStateTransitionPartialToFree => "segment_partial_to_free",
            MetricId::SegmentCacheHit => "segment_cache_hit",
            MetricId::SegmentCacheMiss => "segment_cache_miss",
            MetricId::SegmentPtrLookup => "segment_ptr_lookup",
            MetricId::SegmentPtrLookupSuccess => "segment_ptr_lookup_success",
            MetricId::SegmentPtrLookupFail => "segment_ptr_lookup_fail",
            MetricId::SegmentBitmapSet => "segment_bitmap_set",
            MetricId::SegmentBitmapClear => "segment_bitmap_clear",
            MetricId::QueueAllocate => "queue_allocate",
            MetricId::QueueAllocateSuccess => "queue_allocate_success",
            MetricId::QueueAllocateFail => "queue_allocate_fail",
            MetricId::QueueDeallocate => "queue_deallocate",
            MetricId::QueueDeallocateSuccess => "queue_deallocate_success",
            MetricId::QueueDeallocateFail => "queue_deallocate_fail",
            MetricId::QueueSegmentDisplace => "queue_segment_displace",
            MetricId::QueueTrimFreeSegments => "queue_trim_free_segments",
            MetricId::QueueTrimSegmentsRemoved => "queue_trim_segments_removed",
            MetricId::QueueGetAvailable => "queue_get_available",
            MetricId::QueueGetAvailableFromFree => "queue_get_available_from_free",
            MetricId::QueueGetAvailableFromPartial => "queue_get_available_from_partial",
            MetricId::QueueGetAvailableNone => "queue_get_available_none",
            MetricId::QueueAddSegment => "queue_add_segment",
            MetricId::QueueNewSegmentCreated => "queue_new_segment_created",
            MetricId::HeapAllocate => "heap_allocate",
            MetricId::HeapAllocateSuccess => "heap_allocate_success",
            MetricId::HeapAllocateFail => "heap_allocate_fail",
            MetricId::HeapDeallocate => "heap_deallocate",
            MetricId::HeapDeallocateSuccess => "heap_deallocate_success",
            MetricId::HeapDeallocateFail => "heap_deallocate_fail",
            MetricId::HeapAllocSmall => "heap_alloc_small",
            MetricId::HeapAllocLarge => "heap_alloc_large",
            MetricId::HeapDeallocSmall => "heap_dealloc_small",
            MetricId::HeapDeallocLarge => "heap_dealloc_large",
            MetricId::HeapRemoteProcessing => "heap_remote_processing",
            MetricId::HeapRemoteBatched => "heap_remote_batched",
            MetricId::HeapRemoteSkipped => "heap_remote_skipped",
            MetricId::HeapOperationsCounter => "heap_operations_counter",
            MetricId::HeapClassLookup => "heap_class_lookup",
            MetricId::HeapClassLookupSuccess => "heap_class_lookup_success",
            MetricId::HeapClassLookupFail => "heap_class_lookup_fail",
            MetricId::HeapInvalidSize => "heap_invalid_size",
            MetricId::HeapInvalidPointer => "heap_invalid_pointer",
            MetricId::HeapThreadMismatch => "heap_thread_mismatch",
            MetricId::StaticCreateArena => "static_create_arena",
            MetricId::StaticCreateArenaSuccess => "static_create_arena_success",
            MetricId::StaticCreateArenaFail => "static_create_arena_fail",
            MetricId::StaticAddArena => "static_add_arena",
            MetricId::StaticAddArenaSuccess => "static_add_arena_success",
            MetricId::StaticAddArenaFail => "static_add_arena_fail",
            MetricId::StaticSegmentLookup => "static_segment_lookup",
            MetricId::StaticSegmentLookupSuccess => "static_segment_lookup_success",
            MetricId::StaticSegmentLookupFail => "static_segment_lookup_fail",
            MetricId::StaticArenaGrowth => "static_arena_growth",
            MetricId::SizeClassSmall => "size_class_small",
            MetricId::SizeClassMedium => "size_class_medium",
            MetricId::SizeClassLarge => "size_class_large",
            MetricId::SizeClassHuge => "size_class_huge",
            MetricId::SizeClassPerfectFit => "size_class_perfect_fit",
            MetricId::SizeClassWaste => "size_class_waste",
            MetricId::SizeClass0To7 => "size_class_0_to_7",
            MetricId::SizeClass8To15 => "size_class_8_to_15",
            MetricId::SizeClass16To31 => "size_class_16_to_31",
            MetricId::SizeClass32To47 => "size_class_32_to_47",
            MetricId::SizeClass48To63 => "size_class_48_to_63",
            MetricId::SizeClass64To79 => "size_class_64_to_79",
            MetricId::SizeClass80Plus => "size_class_80_plus",
            MetricId::SizeClassUtilizationHigh => "size_class_utilization_high",
            MetricId::SizeClassUtilizationLow => "size_class_utilization_low",
            MetricId::ErrorInsufficientMemory => "error_insufficient_memory",
            MetricId::ErrorInvalidPointer => "error_invalid_pointer",
            MetricId::ErrorBitmapError => "error_bitmap_error",
            MetricId::ErrorSegmentError => "error_segment_error",
            MetricId::ErrorMapError => "error_map_error",
        }
    }

    /// The component the metric belongs to, by its position.
    pub fn category(self) -> (r: &'static str)
        ensures
            r@ == spec_category(self.spec_index()),
    {
        category_of(self.index())
    }
}

/// The component of the metric at position `index`.
pub open spec fn spec_category(index: int) -> Seq<char> {
    if index <= 14 {
        "Arena"@
    } else if index <= 34 {
        "Segment"@
    } else if index <= 49 {
        "Queue"@
    } else if index <= 69 {
        "Heap"@
    } else if index <= 79 {
        "Static"@
    } else if index <= 94 {
        "SizeClass"@
    } else if index <= 99 {
        "Error"@
    } else {
        "Unknown"@
    }
}

/// The component of the metric at position `index`.
pub fn category_of(index: usize) -> (r: &'static str)
    ensures
        r@ == spec_category(index as int),
{
    if index <= 14 {
        "Arena"
    } else if index <= 34 {
        "Segment"
    } else if index <= 49 {
        "Queue"
    } else if index <= 69 {
        "Heap"
    } else if index <= 79 {
        "Static"
    } else if index <= 94 {
        "SizeClass"
    } else if index <= 99 {
        "Error"
    } else {
        "Unknown"
    }
}

/// A counter per metric.
pub struct Metrics {
    counts: Vec<u64>,
}

impl View for Metrics {
    type V = Seq<u64>;

    closed spec fn view(&self) -> Seq<u64> {
        self.counts@
    }
}

impl Metrics {
    /// Every counter at zero.
    pub fn new() -> (r: Metrics)
        ensures
            r@ == Seq::new(METRIC_COUNT as nat, |i: int| 0u64),
    {
        let mut counts: Vec<u64> = Vec::new();
        let mut i: usize = 0;
        while i < METRIC_COUNT
            invariant
                i <= METRIC_COUNT,
                counts@ == Seq::new(i as nat, |j: int| 0u64),
            decreases METRIC_COUNT - i,
        {
            counts.push(0);
            i = i + 1;
            assert(counts@ =~= Seq::new(i as nat, |j: int| 0u64));
        }
        Metrics { counts }
    }

    pub fn record_metric(&mut self, id: MetricId)
        ensures
            old(self)@.len() == METRIC_COUNT ==> final(self)@ == old(self)@.update(
                id.spec_index(),
                old(self)@[id.spec_index()].wrapping_add(1),
            ),
            old(self)@.len() != METRIC_COUNT ==> final(self)@ == old(self)@,
    {
        self.record_metric_count(id, 1);
    }

    /// Adds `count` to the metric's counter, wrapping around.
    pub fn record_metric_count(&mut self, id: MetricId, count: u64)
        ensures
            old(self)@.len() == METRIC_COUNT ==> final(self)@ == old(self)@.update(
                id.spec_index(),
                old(self)@[id.spec_index()].wrapping_add(count),
            ),
            old(self)@.len() != METRIC_COUNT ==> final(self)@ == old(self)@,
    {
        let index = id.index();
        if self.counts.len() == METRIC_COUNT {
            let v = self.counts[index].wrapping_add(count);
            self.counts.set(index, v);
        }
    }

    pub fn get_metric(&self, id: MetricId) -> (r: u64)
        ensures
            id.spec_index() < self@.len() ==> r == self@[id.spec_index()],
            id.spec_index() >= self@.len() ==> r == 0,
    {
        let index = id.index();
        if index < self.counts.len() {
            self.counts[index]
        } else {
            0
        }
    }

    /// Sets every counter back to zero.
    pub fn start_summary(&mut self)
        ensures
            final(self)@ == Seq::new(old(self)@.len(), |i: int| 0u64),
    {
        let n = self.counts.len();
        let mut i: usize = 0;
        while i < n
            invariant
                i <= n,
                n == self.counts@.len(),
                forall|j: int| 0 <= j < i ==> self.counts@[j] == 0,
            decreases n - i,
        {
            self.counts.set(i, 0);
            i = i + 1;
        }
        assert(self.counts@ =~= Seq::new(old(self)@.len(), |i: int| 0u64));
    }
}

} // verus!
