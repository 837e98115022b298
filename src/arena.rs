//! An arena: one large reservation divided into segment-sized slots, with a
//! bitmap of the slots holding a live segment and a cache of recently freed ones.
use vstd::prelude::*;

use crate::array::Array;
use crate::bitmap::{count_set, lemma_count_is_size, set_positions, Bitmap, BitmapError};
use crate::classes::{valid_class, Class};
use crate::config::{
    align_slice, align_up, slice_offset, LARGE_SC_LIMIT, MEDIUM_ALIGN_LIMIT, PAGE_SIZE, SEGMENT_SIZE,
    WORD,
};
use crate::mapper::{MapError, Mapper, Permissions};
use crate::segment::{lowest_clear, lemma_lowest_clear, Segment, SegmentError};

verus! {

#[derive(Debug)]
pub enum ArenaError {
    MapError(MapError),
    Insufficient,
    SizeIsZero,
    Bitmap(BitmapError),
    Segment(SegmentError),
}

/// Segment slots remembered as recently freed.
pub const ARENA_CACHE_SIZE: usize = 8;

/// Bytes at the start of an arena for its header.
pub const ARENA_HEADER_SIZE: usize = 256;

pub struct Arena {
    base: usize,
    size: usize,
    bitmap: Bitmap<u64>,
    user_start: usize,
    user_len: usize,
    segment_count: usize,
    cache: Array<usize, ARENA_CACHE_SIZE>,
    spans: Vec<(usize, usize)>,
}

impl Arena {
    /// Which segment slots hold a live segment.
    pub closed spec fn occupied(&self) -> Seq<bool> {
        self.bitmap@
    }

    /// Recently freed segment slots, the next to be reused last.
    pub closed spec fn cached(&self) -> Seq<usize> {
        self.cache@
    }

    pub closed spec fn spec_user_start(&self) -> int {
        self.user_start as int
    }

    pub closed spec fn spec_user_len(&self) -> int {
        self.user_len as int
    }

    /// Start and length of the whole reservation.
    pub closed spec fn spec_region(&self) -> (int, int) {
        (self.base as int, self.size as int)
    }

    /// Start and end of the slots of the segment in slot `i`, recorded when
    /// it was built.
    pub closed spec fn slot_span(&self, i: int) -> (int, int) {
        (self.spans@[i].0 as int, self.spans@[i].1 as int)
    }

    /// `s` is a live segment of the arena, and the arena records its slots.
    pub open spec fn records(&self, s: Segment) -> bool {
        &&& self.live_segments().contains(s.spec_base())
        &&& self.slot_span((s.spec_base() - self.spec_user_start()) / (SEGMENT_SIZE as int)) == (
            s.spec_slots(),
            s.spec_end(),
        )
    }

    /// A recorded segment sits at an occupied slot, at that slot's address.
    pub proof fn lemma_records_index(&self, s: Segment)
        requires
            self.wf(),
            self.records(s),
        ensures
            0 <= (s.spec_base() - self.spec_user_start()) / (SEGMENT_SIZE as int) < self.occupied().len(),
            self.occupied()[(s.spec_base() - self.spec_user_start()) / (SEGMENT_SIZE as int)],
            s.spec_base() == self.segment_addr((s.spec_base() - self.spec_user_start()) / (SEGMENT_SIZE as int)),
    {
        self.lemma_live_segments();
        let j = choose|j: int| 0 <= j < self.segment_count && self.bitmap@[j] && s.spec_base() == self.segment_addr(j);
        crate::arith::lemma_compose(j, 0, SEGMENT_SIZE as int);
    }

    /// The segment at an occupied slot is live.
    pub proof fn lemma_index_live(&self, j: int)
        requires
            self.wf(),
            0 <= j < self.occupied().len(),
            self.occupied()[j],
        ensures
            self.live_segments().contains(self.segment_addr(j)),
    {
        assert(set_positions(self.bitmap@).contains(j));
    }

    /// The slots of the live segment that starts at `b` hold `addr`.
    pub open spec fn holds(&self, b: int, addr: int) -> bool {
        &&& self.live_segments().contains(b)
        &&& self.slot_span((b - self.spec_user_start()) / (SEGMENT_SIZE as int)).0 <= addr
        &&& addr < self.slot_span((b - self.spec_user_start()) / (SEGMENT_SIZE as int)).1
    }

    pub open spec fn segment_addr(&self, i: int) -> int {
        self.spec_user_start() + i * SEGMENT_SIZE
    }

    /// The segment slot `allocate` uses next, when there is one.
    pub open spec fn next_index(&self) -> int {
        if self.cached().len() > 0 {
            self.cached().last() as int
        } else {
            lowest_clear(self.occupied())
        }
    }

    pub open spec fn spec_has_space(&self) -> bool {
        self.cached().len() > 0 || exists|i: int| 0 <= i < self.occupied().len() && !#[trigger] self.occupied()[i]
    }

    /// Addresses of the live segments.
    pub open spec fn live_segments(&self) -> Set<int> {
        set_positions(self.occupied()).map(|i: int| self.segment_addr(i))
    }

    pub closed spec fn wf(&self) -> bool {
        &&& self.bitmap.wf()
        &&& self.cache.wf()
        &&& self.bitmap@.len() == self.segment_count
        &&& self.spans@.len() == self.segment_count
        &&& forall|i: int|
            0 <= i < self.segment_count && self.bitmap@[i] ==> self.segment_addr(i) <= (#[trigger] self.spans@[i]).0
                && self.spans@[i].0 <= self.spans@[i].1 <= self.segment_addr(i) + SEGMENT_SIZE
        &&& self.segment_count >= 1
        &&& self.segment_count * SEGMENT_SIZE <= self.user_len
        &&& self.user_start % PAGE_SIZE == 0
        &&& self.base <= self.user_start
        &&& self.user_start + self.user_len == self.base + self.size
        &&& self.base + self.size <= usize::MAX
        &&& forall|k: int|
            0 <= k < self.cache@.len() ==> (#[trigger] self.cache@[k]) < self.segment_count
                && !self.bitmap@[self.cache@[k] as int]
        &&& forall|k: int, l: int|
            0 <= k < l < self.cache@.len() ==> #[trigger] self.cache@[k] != #[trigger] self.cache@[l]
    }

    /// Where an arena of `size` bytes mapped at `base` keeps its parts: the
    /// header length, the start and length of the page-aligned segment area,
    /// and the number of segment slots; none when they do not fit.
    pub open spec fn spec_layout(base: usize, size: usize) -> Option<(int, int, int, int)> {
        let header = ARENA_HEADER_SIZE as int;
        if header >= size {
            None
        } else {
            let s0 = (base + header) as usize;
            let l0 = (size - header) as usize;
            let rest_start = s0 + slice_offset(s0, l0, WORD);
            let rest_len = l0 - slice_offset(s0, l0, WORD);
            let possible = rest_len / (SEGMENT_SIZE as int);
            let bitmap_bytes = (possible / 64 + 1) * 8;
            if possible == 0 || bitmap_bytes >= rest_len {
                None
            } else {
                let s1 = (rest_start + bitmap_bytes) as usize;
                let l1 = (rest_len - bitmap_bytes) as usize;
                let user_start = s1 + slice_offset(s1, l1, PAGE_SIZE);
                let user_len = l1 - slice_offset(s1, l1, PAGE_SIZE);
                let count = user_len / (SEGMENT_SIZE as int);
                if count == 0 {
                    None
                } else {
                    Some((header, user_start, user_len, count))
                }
            }
        }
    }

    /// The layout of an arena of `size` bytes mapped at `base`: header
    /// length, start and length of the segment area, and segment count.
    pub fn layout(base: usize, size: usize) -> (r: Result<(usize, usize, usize, usize), ArenaError>)
        requires
            base + size <= usize::MAX,
        ensures
            Self::spec_layout(base, size) is None ==> r matches Err(ArenaError::Insufficient),
            Self::spec_layout(base, size) matches Some((h, us, ul, c)) ==> r == Ok::<
                (usize, usize, usize, usize),
                ArenaError,
            >((h as usize, us as usize, ul as usize, c as usize)) && us % PAGE_SIZE as int == 0 && c
                * SEGMENT_SIZE <= ul && base <= us && us + ul == base + size && h < size,
    {
        let header = align_up(ARENA_HEADER_SIZE, WORD);
        assert(header == ARENA_HEADER_SIZE);
        if header >= size {
            return Err(ArenaError::Insufficient);
        }
        let (rest_start, rest_len) = align_slice(base + header, size - header, WORD);
        let possible = rest_len / SEGMENT_SIZE;
        if possible == 0 {
            return Err(ArenaError::Insufficient);
        }
        let bitmap_bytes = (possible / 64 + 1) * 8;
        if bitmap_bytes >= rest_len {
            return Err(ArenaError::Insufficient);
        }
        let (user_start, user_len) = align_slice(
            rest_start + bitmap_bytes,
            rest_len - bitmap_bytes,
            PAGE_SIZE,
        );
        let segment_count = user_len / SEGMENT_SIZE;
        if segment_count == 0 {
            return Err(ArenaError::Insufficient);
        }
        proof {
            assert(segment_count * SEGMENT_SIZE <= user_len);
            let st = rest_start + bitmap_bytes;
            assert(slice_offset(st as usize, (rest_len - bitmap_bytes) as usize, PAGE_SIZE) >= 0);
            assert(st + PAGE_SIZE - 1 <= usize::MAX);
            crate::config::lemma_align_up(st as usize, PAGE_SIZE);
        }
        Ok((header, user_start, user_len, segment_count))
    }

    /// Reserves `size` bytes and lays out an arena in them (see `layout`).
    /// Only the header is committed.
    pub fn new<M: Mapper>(mapper: &M, size: usize) -> (r: Result<Arena, ArenaError>)
        ensures
            (r matches Err(ArenaError::SizeIsZero)) <==> size == 0,
            r matches Ok(a) ==> {
                &&& a.wf()
                &&& a.spec_region().1 == size
                &&& Self::spec_layout(a.spec_region().0 as usize, size) == Some(
                    (ARENA_HEADER_SIZE as int, a.spec_user_start(), a.spec_user_len(), a.occupied().len() as int),
                )
                &&& forall|i: int| 0 <= i < a.occupied().len() ==> !#[trigger] a.occupied()[i]
                &&& a.cached().len() == 0
            },
    {
        if size == 0 {
            return Err(ArenaError::SizeIsZero);
        }
        let base = match mapper.map(size) {
            Ok(b) => b,
            Err(e) => return Err(ArenaError::MapError(e)),
        };
        if base > usize::MAX - size {
            mapper.unmap(base, size);
            return Err(ArenaError::MapError(MapError::OutOfMemory));
        }
        let (header, user_start, user_len, segment_count) = match Self::layout(base, size) {
            Ok(l) => l,
            Err(e) => {
                mapper.unmap(base, size);
                return Err(e);
            },
        };
        match mapper.protect(base, header, Permissions::read_write()) {
            Ok(()) => {},
            Err(e) => {
                mapper.unmap(base, size);
                return Err(ArenaError::MapError(e));
            },
        }
        let words = segment_count / 64 + 1;
        let mut store: Vec<u64> = Vec::new();
        let mut k: usize = 0;
        while k < words
            invariant
                k <= words,
                store@.len() == k,
            decreases words - k,
        {
            store.push(0);
            k = k + 1;
        }
        let bitmap = match Bitmap::zero(store, segment_count) {
            Ok(b) => b,
            Err(e) => {
                mapper.unmap(base, size);
                return Err(ArenaError::Bitmap(e));
            },
        };
        let mut spans: Vec<(usize, usize)> = Vec::new();
        let mut k: usize = 0;
        while k < segment_count
            invariant
                k <= segment_count,
                spans@.len() == k,
            decreases segment_count - k,
        {
            spans.push((0, 0));
            k = k + 1;
        }
        Ok(Arena { base, size, bitmap, user_start, user_len, segment_count, cache: Array::new(), spans })
    }

    /// Start and length of segment slot `index`.
    pub fn segment_range(&self, index: usize) -> (r: (usize, usize))
        requires
            self.wf(),
            index < self.occupied().len(),
        ensures
            r == (self.segment_addr(index as int) as usize, SEGMENT_SIZE),
            r.0 + SEGMENT_SIZE <= self.spec_user_start() + self.spec_user_len(),
    {
        proof {
            assert(index * SEGMENT_SIZE + SEGMENT_SIZE <= self.segment_count * SEGMENT_SIZE)
                by (nonlinear_arith)
                requires
                    index < self.segment_count,
            ;
        }
        (self.user_start + index * SEGMENT_SIZE, SEGMENT_SIZE)
    }

    /// Takes the next free segment slot out of the cache, or else the lowest
    /// free slot.
    pub fn take_index(&mut self) -> (r: Option<usize>)
        requires
            old(self).wf(),
        ensures
            final(self).wf(),
            final(self).same_layout(*old(self)),
            final(self).occupied() == old(self).occupied(),
            old(self).spec_has_space() <==> r is Some,
            r matches Some(i) ==> i == old(self).next_index() && 0 <= i < old(self).occupied().len()
                && !old(self).occupied()[i as int] && !final(self).cached().contains(i),
            old(self).cached().len() > 0 ==> final(self).cached() == old(self).cached().drop_last(),
            old(self).cached().len() == 0 ==> final(self).cached() == old(self).cached(),
            forall|i: int| #[trigger] final(self).slot_span(i) == old(self).slot_span(i),
    {
        let ghost before = *self;
        let r = match self.cache.pop() {
            Some(cached) => Some(cached),
            None => match self.bitmap.find_fc() {
                Some(i) => {
                    proof {
                        lemma_lowest_clear(before.bitmap@, i as int);
                    }
                    Some(i)
                },
                None => None,
            },
        };
        proof {
            assert forall|k: int| 0 <= k < self.cache@.len() implies (#[trigger] self.cache@[k])
                < self.segment_count && !self.bitmap@[self.cache@[k] as int] by {
                assert(self.cache@[k] == before.cache@[k]);
            }
            if r is Some && before.cache@.len() > 0 {
                assert forall|k: int| 0 <= k < self.cache@.len() implies self.cache@[k] != r->Some_0 by {
                    assert(self.cache@[k] == before.cache@[k]);
                }
            }
            if r is Some && before.cache@.len() == 0 {
                assert(self.cache@.len() == 0);
            }
        }
        r
    }

    /// Builds a segment of `class` in slot `index` once committing its range
    /// gave `committed`, and marks the slot live.
    pub fn commit_segment(&mut self, index: usize, class: Class, committed: Result<(), MapError>) -> (r: Result<Segment, ArenaError>)
        requires
            old(self).wf(),
            valid_class(class),
            index < old(self).occupied().len(),
            !old(self).occupied()[index as int],
            !old(self).cached().contains(index),
        ensures
            final(self).wf(),
            final(self).same_layout(*old(self)),
            final(self).cached() == old(self).cached(),
            committed matches Err(e) ==> r == Err::<Segment, ArenaError>(ArenaError::MapError(e)),
            committed is Ok && class.size.0 <= LARGE_SC_LIMIT && class.align.0 <= MEDIUM_ALIGN_LIMIT
                ==> r is Ok,
            r is Err ==> final(self).occupied() == old(self).occupied(),
            !(r matches Err(ArenaError::Insufficient)),
            r matches Ok(s) ==> {
                &&& final(self).occupied() == old(self).occupied().update(index as int, true)
                &&& s.wf()
                &&& s.spec_class() == class
                &&& s.spec_base() == old(self).segment_addr(index as int)
                &&& s.spec_end() <= old(self).segment_addr(index as int) + SEGMENT_SIZE
                &&& s.spec_is_empty()
                &&& final(self).live_segments().contains(s.spec_base())
                &&& final(self).slot_span(index as int) == (s.spec_slots(), s.spec_end())
                &&& final(self).records(s)
            },
            forall|i: int|
                0 <= i < old(self).occupied().len() && i != index ==> #[trigger] final(self).slot_span(i) == old(self).slot_span(i),
            r is Err ==> forall|i: int| 0 <= i < old(self).occupied().len() ==> #[trigger] final(self).slot_span(i) == old(self).slot_span(i),
    {
        match committed {
            Ok(()) => {},
            Err(e) => return Err(ArenaError::MapError(e)),
        }
        let (start, len) = self.segment_range(index);
        let segment = match Segment::new(class, start, len) {
            Ok(s) => s,
            Err(e) => return Err(ArenaError::Segment(e)),
        };
        let ghost before = *self;
        let span = (segment.slots(), segment.end());
        self.spans.set(index, span);
        let _ = self.bitmap.set(index);
        proof {
            assert(segment.spec_base() == self.segment_addr(index as int));
            crate::arith::lemma_compose(index as int, 0, SEGMENT_SIZE as int);
            assert((segment.spec_base() - self.spec_user_start()) / (SEGMENT_SIZE as int) == index);
            assert forall|i: int|
                0 <= i < self.segment_count && self.bitmap@[i] implies self.segment_addr(i) <= (#[trigger] self.spans@[i]).0
                    && self.spans@[i].0 <= self.spans@[i].1 <= self.segment_addr(i) + SEGMENT_SIZE by {
                if i != index {
                    assert(self.spans@[i] == before.spans@[i]);
                    assert(before.bitmap@[i]);
                }
            }
            self.lemma_live_segments();
            assert forall|k: int| 0 <= k < self.cache@.len() implies (#[trigger] self.cache@[k])
                < self.segment_count && !self.bitmap@[self.cache@[k] as int] by {
                assert(self.cache@[k] == before.cache@[k]);
                assert(self.cache@[k] != index);
            }
        }
        Ok(segment)
    }

    /// Commits the next free segment slot (see `take_index`), with the range
    /// given by `segment_range`, and builds a segment of `class` in it.
    pub fn allocate<M: Mapper>(&mut self, mapper: &M, class: Class) -> (r: Result<Segment, ArenaError>)
        requires
            old(self).wf(),
            valid_class(class),
        ensures
            final(self).wf(),
            final(self).same_layout(*old(self)),
            (r matches Err(ArenaError::Insufficient)) <==> !old(self).spec_has_space(),
            old(self).spec_has_space() && class.size.0 <= LARGE_SC_LIMIT && class.align.0
                <= MEDIUM_ALIGN_LIMIT ==> (r is Ok || r matches Err(ArenaError::MapError(_))),
            r matches Ok(s) ==> {
                let i = old(self).next_index();
                &&& 0 <= i < old(self).occupied().len()
                &&& !old(self).occupied()[i]
                &&& final(self).occupied() == old(self).occupied().update(i, true)
                &&& s.wf()
                &&& s.spec_class() == class
                &&& s.spec_base() == old(self).segment_addr(i)
                &&& s.spec_end() <= old(self).segment_addr(i) + SEGMENT_SIZE
                &&& s.spec_is_empty()
                &&& final(self).live_segments().contains(s.spec_base())
                &&& final(self).records(s)
            },
            r is Err ==> final(self).occupied() == old(self).occupied(),
            forall|s: Segment| #[trigger] old(self).records(s) ==> final(self).records(s),
            r matches Ok(s) ==> !old(self).live_segments().contains(s.spec_base()) && old(self).spec_user_start()
                <= s.spec_base() && s.spec_base() + SEGMENT_SIZE <= old(self).spec_user_start() + old(self).spec_user_len(),
    {
        let index = match self.take_index() {
            Some(i) => i,
            None => return Err(ArenaError::Insufficient),
        };
        let (start, len) = self.segment_range(index);
        let committed = mapper.protect(start, len, Permissions::read_write());
        let ghost mid = *self;
        let r = self.commit_segment(index, class, committed);
        proof {
            assert forall|s: Segment| #[trigger] old(self).records(s) implies self.records(s) by {
                old(self).lemma_records_index(s);
                let j = (s.spec_base() - old(self).spec_user_start()) / (SEGMENT_SIZE as int);
                assert(old(self).occupied()[j]);
                assert(j != index);
                assert(self.slot_span(j) == mid.slot_span(j));
                assert(self.occupied()[j]);
                self.lemma_index_live(j);
            }
            if r is Ok {
                if old(self).live_segments().contains(r->Ok_0.spec_base()) {
                    old(self).lemma_live_segments();
                    let j = choose|j: int| 0 <= j < old(self).segment_count && old(self).bitmap@[j] && r->Ok_0.spec_base() == old(self).segment_addr(j);
                    let us = old(self).user_start as int;
                    assert(j == index) by (nonlinear_arith)
                        requires
                            us + j * SEGMENT_SIZE == us + index * SEGMENT_SIZE,
                    ;
                }
                assert(self.live_segments().contains(r->Ok_0.spec_base()));
                assert(self.slot_span(index as int) == (r->Ok_0.spec_slots(), r->Ok_0.spec_end()));
                assert(r->Ok_0.spec_base() == old(self).segment_addr(index as int));
                assert(self.records(r->Ok_0));
            }
        }
        r
    }

    /// The slot of the live segment that starts at `segment`.
    pub fn segment_index(&self, segment: usize) -> (r: Result<usize, ArenaError>)
        requires
            self.wf(),
        ensures
            !self.live_segments().contains(segment as int) ==> r matches Err(ArenaError::Insufficient),
            self.live_segments().contains(segment as int) ==> (r matches Ok(i) && i < self.occupied().len()
                && self.occupied()[i as int] && segment == self.segment_addr(i as int)),
    {
        proof {
            self.lemma_live_segments();
        }
        if segment < self.user_start {
            return Err(ArenaError::Insufficient);
        }
        let offset = segment - self.user_start;
        let index = offset / SEGMENT_SIZE;
        if index >= self.segment_count || offset % SEGMENT_SIZE != 0 {
            proof {
                if self.live_segments().contains(segment as int) {
                    let i = choose|i: int| 0 <= i < self.segment_count && self.bitmap@[i] && segment == self.segment_addr(i);
                    crate::arith::lemma_compose(i, 0, SEGMENT_SIZE as int);
                }
            }
            return Err(ArenaError::Insufficient);
        }
        proof {
            crate::arith::lemma_div_mod_split(offset as int, SEGMENT_SIZE as int);
        }
        match self.bitmap.get(index) {
            Ok(true) => {
                proof {
                    assert(segment == self.segment_addr(index as int));
                    assert(set_positions(self.bitmap@).contains(index as int));
                }
                Ok(index)
            },
            _ => {
                proof {
                    if self.live_segments().contains(segment as int) {
                        let i = choose|i: int| 0 <= i < self.segment_count && self.bitmap@[i] && segment == self.segment_addr(i);
                        crate::arith::lemma_compose(i, 0, SEGMENT_SIZE as int);
                    }
                }
                Err(ArenaError::Insufficient)
            },
        }
    }

    /// Frees live slot `index` once decommitting its range gave `decommitted`
    /// and making it inaccessible gave `protected`: the slot is cleared and
    /// remembered in the cache when it has room.
    pub fn release_segment(&mut self, index: usize, decommitted: Result<(), MapError>, protected: Result<(), MapError>) -> (r: Result<(), ArenaError>)
        requires
            old(self).wf(),
            index < old(self).occupied().len(),
            old(self).occupied()[index as int],
        ensures
            final(self).wf(),
            final(self).same_layout(*old(self)),
            decommitted matches Err(e) ==> r == Err::<(), ArenaError>(ArenaError::MapError(e))
                && final(self).occupied() == old(self).occupied() && final(self).cached() == old(self).cached(),
            decommitted is Ok ==> (protected matches Err(e) ==> r == Err::<(), ArenaError>(ArenaError::MapError(e))
                && final(self).occupied() == old(self).occupied() && final(self).cached() == old(self).cached()),
            forall|i: int| #[trigger] final(self).slot_span(i) == old(self).slot_span(i),
            decommitted is Ok && protected is Ok ==> {
                &&& r is Ok
                &&& final(self).occupied() == old(self).occupied().update(index as int, false)
                &&& old(self).cached().len() < ARENA_CACHE_SIZE ==> final(self).cached() == old(self).cached().push(index)
                &&& old(self).cached().len() >= ARENA_CACHE_SIZE ==> final(self).cached() == old(self).cached()
            },
    {
        match decommitted {
            Ok(()) => {},
            Err(e) => return Err(ArenaError::MapError(e)),
        }
        match protected {
            Ok(()) => {},
            Err(e) => return Err(ArenaError::MapError(e)),
        }
        let ghost before = *self;
        let _ = self.cache.push(index);
        let _ = self.bitmap.clear(index);
        proof {
            assert forall|k: int| 0 <= k < self.cache@.len() implies (#[trigger] self.cache@[k])
                < self.segment_count && !self.bitmap@[self.cache@[k] as int] by {
                if k < before.cache@.len() {
                    assert(self.cache@[k] == before.cache@[k]);
                }
            }
            assert forall|k: int, l: int| 0 <= k < l < self.cache@.len() implies #[trigger] self.cache@[k]
                != #[trigger] self.cache@[l] by {
                assert(self.cache@[k] == before.cache@[k]);
                if l == before.cache@.len() {
                    assert(!before.bitmap@[before.cache@[k] as int]);
                } else {
                    assert(self.cache@[l] == before.cache@[l]);
                }
            }
        }
        Ok(())
    }

    /// Decommits the live segment that starts at `segment` (its range is
    /// `segment_range` of its slot) and frees its slot; a segment that is not
    /// live is refused.
    pub fn deallocate<M: Mapper>(&mut self, mapper: &M, segment: usize) -> (r: Result<(), ArenaError>)
        requires
            old(self).wf(),
        ensures
            final(self).wf(),
            final(self).same_layout(*old(self)),
            (r matches Err(ArenaError::Insufficient)) <==> !old(self).live_segments().contains(segment as int),
            old(self).live_segments().contains(segment as int) ==> (r is Ok || r matches Err(
                ArenaError::MapError(_),
            )),
            r is Ok ==> final(self).occupied() == old(self).occupied().update(
                (segment - old(self).spec_user_start()) / (SEGMENT_SIZE as int),
                false,
            ) && !final(self).live_segments().contains(segment as int),
            r is Err ==> final(self).occupied() == old(self).occupied(),
            forall|s: Segment| #[trigger] old(self).records(s) && s.spec_base() != segment ==> final(self).records(s),
            r is Err ==> forall|s: Segment| #[trigger] old(self).records(s) ==> final(self).records(s),
    {
        let index = match self.segment_index(segment) {
            Ok(i) => i,
            Err(e) => return Err(e),
        };
        let (start, len) = self.segment_range(index);
        let decommitted = mapper.decommit(start, len);
        let protected = match decommitted {
            Ok(()) => mapper.protect(start, len, Permissions::none()),
            Err(e) => Err(e),
        };
        let ghost mid = *self;
        let r = self.release_segment(index, decommitted, protected);
        proof {
            assert forall|s: Segment| #[trigger] old(self).records(s) && s.spec_base() != segment implies self.records(s) by {
                old(self).lemma_records_index(s);
                let j = (s.spec_base() - old(self).spec_user_start()) / (SEGMENT_SIZE as int);
                if j == index {
                    assert(s.spec_base() == old(self).segment_addr(index as int));
                }
                assert(self.occupied()[j]);
                self.lemma_index_live(j);
            }
            crate::arith::lemma_compose(index as int, 0, SEGMENT_SIZE as int);
            assert((segment - old(self).spec_user_start()) / (SEGMENT_SIZE as int) == index);
            if r is Ok {
                self.lemma_live_segments();
                if self.live_segments().contains(segment as int) {
                    let j = choose|j: int| 0 <= j < self.segment_count && self.bitmap@[j] && segment == self.segment_addr(j);
                    assert(j * SEGMENT_SIZE == index * SEGMENT_SIZE);
                    assert(j == index) by (nonlinear_arith)
                        requires
                            j * SEGMENT_SIZE == index * SEGMENT_SIZE,
                    ;
                }
            }
        }
        r
    }

    /// The user area, the segment count and the mapping are those of `other`.
    pub open spec fn same_layout(&self, other: Arena) -> bool {
        &&& self.spec_user_start() == other.spec_user_start()
        &&& self.spec_user_len() == other.spec_user_len()
        &&& self.spec_region() == other.spec_region()
        &&& self.occupied().len() == other.occupied().len()
    }

    /// Whether a segment slot is free.
    pub fn has_space(&self) -> (r: bool)
        requires
            self.wf(),
        ensures
            r == self.spec_has_space(),
    {
        if !self.cache.is_empty() {
            return true;
        }
        let r = self.bitmap.find_fc();
        proof {
            if let Some(i) = r {
                assert(!self.occupied()[i as int]);
            } else {
                assert forall|i: int| 0 <= i < self.occupied().len() implies #[trigger] self.occupied()[i] by {
                    assert(self.bitmap@[i]);
                }
            }
        }
        r.is_some()
    }

    pub fn user_start(&self) -> (r: usize)
        ensures
            r == self.spec_user_start(),
    {
        self.user_start
    }

    pub fn user_len(&self) -> (r: usize)
        ensures
            r == self.spec_user_len(),
    {
        self.user_len
    }

    /// The live segment whose slots hold `addr`, by its start.
    pub fn slots_at(&self, addr: usize) -> (r: Option<usize>)
        requires
            self.wf(),
        ensures
            r matches Some(b) ==> self.holds(b as int, addr as int),
            r is None ==> forall|b: int| !#[trigger] self.holds(b, addr as int),
    {
        proof {
            self.lemma_live_segments();
        }
        match self.segment_at(addr) {
            Some(b) => {
                let index = (b - self.user_start) / SEGMENT_SIZE;
                proof {
                    let i = choose|i: int| 0 <= i < self.segment_count && self.bitmap@[i] && b == self.segment_addr(i);
                    crate::arith::lemma_compose(i, 0, SEGMENT_SIZE as int);
                    assert(index == i);
                    assert forall|b2: int| #[trigger] self.holds(b2, addr as int) implies b2 == b by {
                        let j = choose|j: int| 0 <= j < self.segment_count && self.bitmap@[j] && b2 == self.segment_addr(j);
                        crate::arith::lemma_compose(j, 0, SEGMENT_SIZE as int);
                        assert((b2 - self.user_start) / (SEGMENT_SIZE as int) == j);
                        assert(self.spans@[j].0 <= addr < self.spans@[j].1);
                        self.lemma_segments_apart(b as int, b2, addr as int);
                    }
                }
                let (lo, hi) = self.spans[index];
                if lo <= addr && addr < hi {
                    Some(b)
                } else {
                    None
                }
            },
            None => {
                proof {
                    assert forall|b2: int| !#[trigger] self.holds(b2, addr as int) by {
                        if self.holds(b2, addr as int) {
                            let j = choose|j: int| 0 <= j < self.segment_count && self.bitmap@[j] && b2 == self.segment_addr(j);
                            crate::arith::lemma_compose(j, 0, SEGMENT_SIZE as int);
                            assert((b2 - self.user_start) / (SEGMENT_SIZE as int) == j);
                        }
                    }
                }
                None
            },
        }
    }

    /// The slot of the segment that would hold `addr`, with its start, when
    /// that slot holds a live segment.
    pub fn segment_at(&self, addr: usize) -> (r: Option<usize>)
        requires
            self.wf(),
        ensures
            r matches Some(b) ==> self.live_segments().contains(b as int) && b <= addr < b
                + SEGMENT_SIZE,
            r is None ==> forall|b: int|
                #[trigger] self.live_segments().contains(b) ==> !(b <= addr < b + SEGMENT_SIZE),
    {
        proof {
            self.lemma_live_segments();
        }
        if addr < self.user_start {
            proof {
                assert forall|b: int| #[trigger] self.live_segments().contains(b) implies !(b <= addr < b
                    + SEGMENT_SIZE) by {
                    let i = choose|i: int| 0 <= i < self.segment_count && self.bitmap@[i] && b == self.segment_addr(i);
                    assert(i * SEGMENT_SIZE >= 0) by (nonlinear_arith)
                        requires
                            i >= 0,
                    ;
                }
            }
            return None;
        }
        let offset = addr - self.user_start;
        let index = offset / SEGMENT_SIZE;
        proof {
            crate::arith::lemma_div_mod_split(offset as int, SEGMENT_SIZE as int);
            assert forall|b: int| #[trigger] self.live_segments().contains(b) && b <= addr < b + SEGMENT_SIZE implies b == self.segment_addr(index as int) by {
                let i = choose|i: int| 0 <= i < self.segment_count && self.bitmap@[i] && b == self.segment_addr(i);
                assert(i == index) by (nonlinear_arith)
                    requires
                        b == self.user_start + i * SEGMENT_SIZE,
                        b <= addr < b + SEGMENT_SIZE,
                        addr - self.user_start == index * SEGMENT_SIZE + (offset as int) % (SEGMENT_SIZE as int),
                        offset == addr - self.user_start,
                        0 <= (offset as int) % (SEGMENT_SIZE as int) < SEGMENT_SIZE,
                ;
            }
        }
        if index >= self.segment_count {
            return None;
        }
        match self.bitmap.get(index) {
            Ok(true) => {
                proof {
                    assert(set_positions(self.bitmap@).contains(index as int));
                    assert(index * SEGMENT_SIZE <= self.segment_count * SEGMENT_SIZE) by (nonlinear_arith)
                        requires
                            index < self.segment_count,
                    ;
                }
                Some(self.user_start + index * SEGMENT_SIZE)
            },
            _ => None,
        }
    }

    pub proof fn lemma_live_segment_in_user(&self, b: int)
        requires
            self.wf(),
            self.live_segments().contains(b),
        ensures
            self.spec_user_start() <= b,
            b + SEGMENT_SIZE <= self.spec_user_start() + self.spec_user_len(),
    {
        self.lemma_live_segments();
        let i = choose|i: int| 0 <= i < self.segment_count && self.bitmap@[i] && b == self.segment_addr(i);
        assert(0 <= i * SEGMENT_SIZE && i * SEGMENT_SIZE + SEGMENT_SIZE <= self.segment_count * SEGMENT_SIZE) by (nonlinear_arith)
            requires
                0 <= i < self.segment_count,
        ;
    }

    /// Slots that hold `addr` lie in their segment.
    pub proof fn lemma_holds_in_segment(&self, b: int, addr: int)
        requires
            self.wf(),
            self.holds(b, addr),
        ensures
            b <= addr < b + SEGMENT_SIZE,
    {
        self.lemma_live_segments();
        let j = choose|j: int| 0 <= j < self.segment_count && self.bitmap@[j] && b == self.segment_addr(j);
        crate::arith::lemma_compose(j, 0, SEGMENT_SIZE as int);
        assert((b - self.user_start) / (SEGMENT_SIZE as int) == j);
        assert(self.spans@[j].0 <= addr < self.spans@[j].1);
    }

    /// Two live segments of the arena that both hold `addr` are the same.
    pub proof fn lemma_segments_apart(&self, b1: int, b2: int, addr: int)
        requires
            self.wf(),
            self.live_segments().contains(b1),
            self.live_segments().contains(b2),
            b1 <= addr < b1 + SEGMENT_SIZE,
            b2 <= addr < b2 + SEGMENT_SIZE,
        ensures
            b1 == b2,
    {
        self.lemma_live_segments();
        let i = choose|i: int| 0 <= i < self.segment_count && self.bitmap@[i] && b1 == self.segment_addr(i);
        let j = choose|j: int| 0 <= j < self.segment_count && self.bitmap@[j] && b2 == self.segment_addr(j);
        assert(i == j) by (nonlinear_arith)
            requires
                b1 == self.user_start + i * SEGMENT_SIZE,
                b2 == self.user_start + j * SEGMENT_SIZE,
                b1 <= addr < b1 + SEGMENT_SIZE,
                b2 <= addr < b2 + SEGMENT_SIZE,
        ;
    }

    proof fn lemma_live_segments(&self)
        requires
            self.wf(),
        ensures
            forall|b: int| #[trigger] self.live_segments().contains(b) <==> exists|i: int|
                0 <= i < self.segment_count && self.bitmap@[i] && b == self.segment_addr(i),
    {
        assert forall|b: int| #[trigger] self.live_segments().contains(b) <==> exists|i: int|
            0 <= i < self.segment_count && self.bitmap@[i] && b == self.segment_addr(i) by {
            if exists|i: int| 0 <= i < self.segment_count && self.bitmap@[i] && b == self.segment_addr(i) {
                let i = choose|i: int| 0 <= i < self.segment_count && self.bitmap@[i] && b == self.segment_addr(i);
                assert(set_positions(self.bitmap@).contains(i));
            }
        }
    }
}

/// The number of set bits in an arena's bitmap is the number of its live
/// segments.
pub proof fn lemma_arena_count(a: Arena)
    requires
        a.wf(),
    ensures
        a.live_segments().finite(),
        a.live_segments().len() == count_set(a.occupied()),
{
    let f = |i: int| a.segment_addr(i);
    let x = set_positions(a.occupied());
    lemma_count_is_size(a.occupied());
    assert forall|p: int, q: int| x.contains(p) && x.contains(q) && #[trigger] f(p) == #[trigger] f(q) implies p == q by {}
    vstd::set_lib::lemma_map_size(x, x.map(f), f);
    assert(a.live_segments() == x.map(f));
}

} // verus!
