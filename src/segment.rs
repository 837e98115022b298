//! A segment: a fixed span of memory carved into equally sized slots of one
//! class, with a bitmap of the slots in use and a cache of recently freed ones.
use vstd::prelude::*;

use crate::array::Array;
use crate::bitmap::{count_set, lemma_count_is_size, set_positions, Bitmap, BitmapError};
use crate::classes::{lemma_size_at_least_align, valid_class, Class};
use crate::config::{
    align_slice, slice_offset, spec_align_up, WORD, LARGE_SC_LIMIT, MEDIUM_ALIGN_LIMIT, SEGMENT_SIZE,
};

verus! {

/// Slots remembered as recently freed.
pub const SEGMENT_CACHE_SIZE: usize = 12;

/// Bytes at the start of a segment for its header and recent-free cache.
pub const SEGMENT_HEADER_SIZE: usize = 256;

#[derive(Debug)]
pub enum SegmentError {
    InsufficientCapacity { class_id: usize },
    Bitmap(BitmapError),
}

/// The lowest index of `s` that is clear.
pub open spec fn lowest_clear(s: Seq<bool>) -> int {
    choose|i: int| 0 <= i < s.len() && !s[i] && forall|j: int| 0 <= j < i ==> #[trigger] s[j]
}

pub proof fn lemma_lowest_clear(s: Seq<bool>, i: int)
    requires
        0 <= i < s.len(),
        !s[i],
        forall|j: int| 0 <= j < i ==> #[trigger] s[j],
    ensures
        lowest_clear(s) == i,
{
    let k = lowest_clear(s);
    assert(0 <= k < s.len() && !s[k] && forall|j: int| 0 <= j < k ==> #[trigger] s[j]);
    if k < i {
        assert(s[k]);
    } else if k > i {
        assert(s[i]);
    }
}

/// How many slots of `class` a segment built in `[base, base + len)` holds:
/// after the header, a word-aligned bitmap with a bit for every slot the rest
/// could hold, and the first slot aligned to the class.
pub open spec fn spec_slot_count(class: Class, base: usize, len: usize) -> int {
    let s0 = (base + SEGMENT_HEADER_SIZE) as usize;
    let l0 = (len - SEGMENT_HEADER_SIZE) as usize;
    let off = slice_offset(s0, l0, WORD);
    let words = ((l0 - off) / (class.size.0 as int) + 63) / 64;
    let rest_start = (s0 + off + words * 8) as usize;
    let rest_len = (s0 + l0 - rest_start) as usize;
    (rest_len - slice_offset(rest_start, rest_len, class.align.0)) / (class.size.0 as int)
}

pub struct Segment {
    class: Class,
    base: usize,
    slots: usize,
    user_len: usize,
    bitmap: Bitmap<u64>,
    cache: Array<usize, SEGMENT_CACHE_SIZE>,
}

impl Segment {
    pub closed spec fn spec_class(&self) -> Class {
        self.class
    }

    /// Start of the span the segment was built in.
    pub closed spec fn spec_base(&self) -> int {
        self.base as int
    }

    /// Address of the first slot.
    pub closed spec fn spec_slots(&self) -> int {
        self.slots as int
    }

    /// Which slots are in use.
    pub closed spec fn used(&self) -> Seq<bool> {
        self.bitmap@
    }

    /// Recently freed slots, the next to be reused last.
    pub closed spec fn cached(&self) -> Seq<usize> {
        self.cache@
    }

    pub open spec fn slot_count(&self) -> nat {
        self.used().len()
    }

    pub open spec fn slot_addr(&self, i: int) -> int {
        self.spec_slots() + i * self.spec_class().size.0
    }

    /// One past the last slot.
    pub open spec fn spec_end(&self) -> int {
        self.slot_addr(self.slot_count() as int)
    }

    /// `p` is a slot that is in use.
    pub open spec fn is_live(&self, p: int) -> bool {
        exists|i: int| 0 <= i < self.slot_count() && self.used()[i] && p == self.slot_addr(i)
    }

    /// Addresses of the slots in use.
    pub open spec fn live_addrs(&self) -> Set<int> {
        set_positions(self.used()).map(|i: int| self.slot_addr(i))
    }

    /// The slot `alloc_slot` hands out next, when there is one.
    pub open spec fn next_index(&self) -> int {
        if self.cached().len() > 0 {
            self.cached().last() as int
        } else {
            lowest_clear(self.used())
        }
    }

    pub open spec fn spec_is_full(&self) -> bool {
        forall|i: int| 0 <= i < self.slot_count() ==> #[trigger] self.used()[i]
    }

    pub open spec fn spec_is_empty(&self) -> bool {
        forall|i: int| 0 <= i < self.slot_count() ==> !#[trigger] self.used()[i]
    }

    pub closed spec fn wf(&self) -> bool {
        &&& valid_class(self.class)
        &&& self.bitmap.wf()
        &&& self.cache.wf()
        &&& self.bitmap@.len() >= 1
        &&& self.base <= self.slots
        &&& self.slots % self.class.align.0 == 0
        &&& self.slots + self.bitmap@.len() * self.class.size.0 <= usize::MAX
        &&& self.bitmap@.len() * self.class.size.0 <= self.user_len
        &&& forall|k: int|
            0 <= k < self.cache@.len() ==> (#[trigger] self.cache@[k]) < self.bitmap@.len()
                && !self.bitmap@[self.cache@[k] as int]
        &&& forall|k: int, l: int|
            0 <= k < l < self.cache@.len() ==> #[trigger] self.cache@[k] != #[trigger] self.cache@[l]
    }

    /// A segment has at least one slot, so it is never both empty and full.
    pub proof fn lemma_has_slot(&self)
        requires
            self.wf(),
        ensures
            self.slot_count() >= 1,
            self.spec_is_empty() ==> !self.spec_is_full(),
    {
        if self.spec_is_empty() {
            assert(!self.used()[0]);
        }
    }

    /// A segment that is not full hands out a slot that is free.
    pub proof fn lemma_next_index_free(&self)
        requires
            self.wf(),
            !self.spec_is_full(),
        ensures
            0 <= self.next_index() < self.slot_count(),
            !self.used()[self.next_index()],
    {
        if self.cached().len() == 0 {
            let i = choose|i: int| 0 <= i < self.slot_count() && !self.used()[i];
            let m = self.lowest_witness(i);
            lemma_lowest_clear(self.used(), m);
        } else {
            assert(self.cache@[self.cache@.len() - 1] < self.bitmap@.len());
        }
    }

    /// Some clear index at or below `i`, with every index below it set.
    proof fn lowest_witness(&self, i: int) -> (m: int)
        requires
            0 <= i < self.used().len(),
            !self.used()[i],
        ensures
            0 <= m <= i,
            !self.used()[m],
            forall|j: int| 0 <= j < m ==> #[trigger] self.used()[j],
        decreases i,
    {
        if exists|j: int| 0 <= j < i && !self.used()[j] {
            let j = choose|j: int| 0 <= j < i && !self.used()[j];
            self.lowest_witness(j)
        } else {
            i
        }
    }

    /// Builds a segment of `class` in `[base, base + len)`: the header and the
    /// bitmap come first, then as many slots as fit, the first aligned to the
    /// class.
    pub fn new(class: Class, base: usize, len: usize) -> (r: Result<Segment, SegmentError>)
        requires
            valid_class(class),
            base + len <= usize::MAX,
        ensures
            (r matches Ok(s) ==> s.wf() && s.spec_class() == class && s.spec_base() == base
                && s.spec_end() <= base + len && s.spec_is_empty() && s.cached().len() == 0
                && base <= s.spec_slots() <= s.spec_end()),
            (r matches Err(e) ==> e == (SegmentError::InsufficientCapacity { class_id: class.id })),
            len == SEGMENT_SIZE && class.size.0 <= LARGE_SC_LIMIT && class.align.0 <= MEDIUM_ALIGN_LIMIT
                ==> r is Ok,
            (r is Ok) <==> (len >= SEGMENT_HEADER_SIZE && spec_slot_count(class, base, len) >= 1),
            r matches Ok(s) ==> s.slot_count() == spec_slot_count(class, base, len),
    {
        if len < SEGMENT_HEADER_SIZE {
            return Err(SegmentError::InsufficientCapacity { class_id: class.id });
        }
        let parts = class.segment(base + SEGMENT_HEADER_SIZE, len - SEGMENT_HEADER_SIZE);
        let (slots, user_len) = align_slice(parts.rest_start, parts.rest_len, class.align.0);
        let size = class.size.0;
        let n = user_len / size;
        if n == 0 {
            proof {
                if len == SEGMENT_SIZE && size <= LARGE_SC_LIMIT && class.align.0 <= MEDIUM_ALIGN_LIMIT {
                    let start = (base + SEGMENT_HEADER_SIZE) as usize;
                    let l = (len - SEGMENT_HEADER_SIZE) as usize;
                    lemma_size_at_least_align(class);
                    crate::config::lemma_align_up(start, 8);
                    let off8 = slice_offset(start, l, 8);
                    assert(0 <= off8 < 8);
                    let objects = (l - off8) / (size as int);
                    assert(objects <= 65504) by (nonlinear_arith)
                        requires
                            objects == (l - off8) / (size as int),
                            size >= 8,
                            0 <= l - off8 <= 524032,
                    ;
                    assert(parts.bitmap_words <= 1024);
                    assert(parts.rest_len >= 515833);
                    crate::config::lemma_align_up(parts.rest_start, class.align.0);
                    assert(user_len >= 514810);
                    assert(user_len / size >= 1) by (nonlinear_arith)
                        requires
                            user_len >= size,
                            size > 0,
                    ;
                }
            }
            return Err(SegmentError::InsufficientCapacity { class_id: class.id });
        }
        proof {
            lemma_size_at_least_align(class);
            assert(n * size <= user_len) by (nonlinear_arith)
                requires
                    n == (user_len as int) / (size as int),
                    size > 0,
            ;
            assert(n <= user_len / 8) by (nonlinear_arith)
                requires
                    n == (user_len as int) / (size as int),
                    size >= 8,
            ;
            let a = class.align.0 as int;
            assert(n * size >= size) by (nonlinear_arith)
                requires
                    n >= 1,
                    size > 0,
            ;
            assert(slice_offset(parts.rest_start, parts.rest_len, class.align.0) >= 0);
            assert(slots + user_len <= usize::MAX);
            assert(parts.rest_start + a - 1 <= usize::MAX);
            crate::config::lemma_align_up(parts.rest_start, class.align.0);
            let add = if parts.rest_start + a - 1 <= usize::MAX {
                parts.rest_start + a - 1
            } else {
                usize::MAX as int
            };
            vstd::arithmetic::div_mod::lemma_mod_multiples_basic(add / a, a);
            assert(slots == spec_align_up(parts.rest_start, class.align.0));
        }
        let words = n / 64 + 1;
        let mut store: Vec<u64> = Vec::new();
        let mut k: usize = 0;
        while k < words
            invariant
                k <= words,
                store@.len() == k,
            decreases words - k,
        {
            store.push(0);
            k = k + 1;
        }
        let bitmap = match Bitmap::zero(store, n) {
            Ok(b) => b,
            Err(e) => return Err(SegmentError::Bitmap(e)),
        };
        let seg = Segment { class, base, slots, user_len, bitmap, cache: Array::new() };
        proof {
            assert(seg.slot_addr(n as int) == slots + n * size);
        }
        Ok(seg)
    }

    pub fn class(&self) -> (r: Class)
        ensures
            r == self.spec_class(),
    {
        self.class
    }

    /// Address of the first slot.
    pub fn slots(&self) -> (r: usize)
        ensures
            r == self.spec_slots(),
    {
        self.slots
    }

    /// Bytes from the first slot to the end of the span, of which whole slots
    /// are used.
    pub fn user_len(&self) -> (r: usize)
        requires
            self.wf(),
        ensures
            r >= self.slot_count() * self.spec_class().size.0,
    {
        self.user_len
    }

    /// The bitmap of slots in use.
    pub fn bitmap(&self) -> (r: &Bitmap<u64>)
        requires
            self.wf(),
        ensures
            r.wf(),
            r@ == self.used(),
    {
        &self.bitmap
    }

    /// Start of the span the segment was built in.
    pub fn base(&self) -> (r: usize)
        ensures
            r == self.spec_base(),
    {
        self.base
    }

    /// Number of slots.
    pub fn capacity(&self) -> (r: usize)
        requires
            self.wf(),
        ensures
            r == self.slot_count(),
    {
        self.bitmap.bits()
    }

    pub fn is_full(&self) -> (r: bool)
        requires
            self.wf(),
        ensures
            r == self.spec_is_full(),
    {
        let r = self.bitmap.find_fc();
        proof {
            if let Some(i) = r {
                assert(!self.used()[i as int]);
            } else {
                assert forall|i: int| 0 <= i < self.slot_count() implies #[trigger] self.used()[i] by {
                    assert(self.bitmap@[i]);
                }
            }
        }
        r.is_none()
    }

    pub fn is_empty(&self) -> (r: bool)
        requires
            self.wf(),
        ensures
            r == self.spec_is_empty(),
    {
        let r = self.bitmap.is_clear();
        proof {
            if r {
                assert forall|i: int| 0 <= i < self.slot_count() implies !#[trigger] self.used()[i] by {
                    assert(!self.bitmap@[i]);
                }
            } else {
                let i = choose|i: int| 0 <= i < self.bitmap@.len() && self.bitmap@[i];
                assert(self.used()[i]);
            }
        }
        r
    }

    /// One past the last slot.
    pub fn end(&self) -> (r: usize)
        requires
            self.wf(),
        ensures
            r == self.spec_end(),
    {
        self.slots + self.bitmap.bits() * self.class.size.0
    }

    /// Whether `ptr` falls among the slots.
    pub fn contains_ptr(&self, ptr: usize) -> (r: bool)
        requires
            self.wf(),
        ensures
            r == (self.spec_slots() <= ptr < self.spec_end()),
    {
        let end = self.slots + self.bitmap.bits() * self.class.size.0;
        self.slots <= ptr && ptr < end
    }

    /// Whether `ptr` is a slot in use.
    pub fn is_live_ptr(&self, ptr: usize) -> (r: bool)
        requires
            self.wf(),
        ensures
            r == self.is_live(ptr as int),
    {
        match self.index_from_ptr(ptr) {
            Some(i) => {
                let r = match self.bitmap.get(i) {
                    Ok(b) => b,
                    Err(_) => false,
                };
                proof {
                    if self.is_live(ptr as int) {
                        let j = choose|j: int| 0 <= j < self.slot_count() && self.used()[j] && ptr == self.slot_addr(j);
                        let size = self.class.size.0 as int;
                        assert((j - i) * size == 0) by (nonlinear_arith)
                            requires
                                self.slots + j * size == self.slots + i * size,
                        ;
                        assert(j == i) by (nonlinear_arith)
                            requires
                                (j - i) * size == 0,
                                size > 0,
                        ;
                    }
                }
                r
            },
            None => false,
        }
    }

    /// Index of the slot that starts at `ptr`.
    fn index_from_ptr(&self, ptr: usize) -> (r: Option<usize>)
        requires
            self.wf(),
        ensures
            r matches Some(i) ==> i < self.slot_count() && ptr == self.slot_addr(i as int),
            r is None ==> forall|i: int| 0 <= i < self.slot_count() ==> ptr != self.slot_addr(i),
    {
        let size = self.class.size.0;
        let n = self.bitmap.bits();
        let end = self.slots + n * size;
        if ptr < self.slots || ptr >= end {
            proof {
                assert forall|i: int| 0 <= i < self.slot_count() implies ptr != self.slot_addr(i) by {
                    assert(i * size < n * size) by (nonlinear_arith)
                        requires
                            0 <= i < n,
                            size > 0,
                    ;
                    assert(i * size >= 0) by (nonlinear_arith)
                        requires
                            0 <= i,
                            size > 0,
                    ;
                }
            }
            return None;
        }
        let offset = ptr - self.slots;
        if offset % size != 0 {
            proof {
                assert forall|i: int| 0 <= i < self.slot_count() implies ptr != self.slot_addr(i) by {
                    if ptr == self.slot_addr(i) {
                        vstd::arithmetic::div_mod::lemma_mod_multiples_basic(i, size as int);
                    }
                }
            }
            return None;
        }
        let index = offset / size;
        proof {
            crate::arith::lemma_div_mod_split(offset as int, size as int);
            assert(index < n) by (nonlinear_arith)
                requires
                    offset == index * size,
                    offset < n * size,
                    size > 0,
            ;
        }
        Some(index)
    }

    /// Address of slot `index`.
    fn ptr_from_index(&self, index: usize) -> (r: usize)
        requires
            self.wf(),
            index < self.slot_count(),
        ensures
            r == self.slot_addr(index as int),
    {
        proof {
            assert(index * self.class.size.0 <= self.bitmap@.len() * self.class.size.0)
                by (nonlinear_arith)
                requires
                    index < self.bitmap@.len(),
            ;
        }
        self.slots + index * self.class.size.0
    }

    /// Hands out a free slot: the most recently freed one if the cache has
    /// any, else the lowest free slot.
    pub fn alloc_slot(&mut self) -> (r: Option<usize>)
        requires
            old(self).wf(),
        ensures
            final(self).wf(),
            final(self).spec_class() == old(self).spec_class(),
            final(self).spec_base() == old(self).spec_base(),
            final(self).spec_slots() == old(self).spec_slots(),
            final(self).slot_count() == old(self).slot_count(),
            old(self).spec_is_full() ==> r is None && final(self).used() == old(self).used() && final(self).cached() == old(self).cached(),
            !old(self).spec_is_full() ==> {
                let i = old(self).next_index();
                &&& 0 <= i < old(self).slot_count()
                &&& !old(self).used()[i]
                &&& r == Some(old(self).slot_addr(i) as usize)
                &&& old(self).slot_addr(i) == r->Some_0 as int
                &&& final(self).used() == old(self).used().update(i, true)
                &&& old(self).cached().len() > 0 ==> final(self).cached() == old(self).cached().drop_last()
                &&& old(self).cached().len() == 0 ==> final(self).cached() == old(self).cached()
            },
    {
        let ghost before = *self;
        let index = match self.cache.pop() {
            Some(cached) => cached,
            None => match self.bitmap.find_fc() {
                Some(i) => {
                    proof {
                        lemma_lowest_clear(before.bitmap@, i as int);
                    }
                    i
                },
                None => return None,
            },
        };
        proof {
            if before.spec_is_full() {
                assert(!before.bitmap@[index as int]);
            }
        }
        let _ = self.bitmap.set(index);
        proof {
            assert forall|k: int| 0 <= k < self.cache@.len() implies (#[trigger] self.cache@[k])
                < self.bitmap@.len() && !self.bitmap@[self.cache@[k] as int] by {
                assert(self.cache@[k] == before.cache@[k]);
                if before.cache@.len() > 0 {
                    assert(self.cache@[k] != before.cache@[before.cache@.len() - 1]);
                }
            }
        }
        proof {
            assert(index * self.class.size.0 <= self.bitmap@.len() * self.class.size.0)
                by (nonlinear_arith)
                requires
                    index < self.bitmap@.len(),
            ;
        }
        Some(self.ptr_from_index(index))
    }

    /// Takes back the slot at `ptr`. Refuses a pointer that is not the start of
    /// a slot in use.
    pub fn dealloc(&mut self, ptr: usize) -> (r: bool)
        requires
            old(self).wf(),
        ensures
            final(self).wf(),
            final(self).spec_class() == old(self).spec_class(),
            final(self).spec_base() == old(self).spec_base(),
            final(self).spec_slots() == old(self).spec_slots(),
            final(self).slot_count() == old(self).slot_count(),
            r == old(self).is_live(ptr as int),
            !r ==> final(self).used() == old(self).used() && final(self).cached() == old(self).cached(),
            r ==> final(self).used() == old(self).used().update(
                (ptr - old(self).spec_slots()) / (old(self).spec_class().size.0 as int),
                false,
            ),
            r ==> !final(self).is_live(ptr as int),
            r && old(self).cached().len() < SEGMENT_CACHE_SIZE ==> final(self).cached() == old(self).cached().push(
                ((ptr - old(self).spec_slots()) / (old(self).spec_class().size.0 as int)) as usize,
            ),
            r && old(self).cached().len() >= SEGMENT_CACHE_SIZE ==> final(self).cached() == old(self).cached(),
    {
        let ghost before = *self;
        let index = match self.index_from_ptr(ptr) {
            Some(i) => i,
            None => return false,
        };
        proof {
            let size = self.class.size.0 as int;
            crate::arith::lemma_compose(index as int, 0, size);
            assert((ptr - self.slots) / size == index);
            assert forall|i: int| 0 <= i < self.slot_count() && ptr == self.slot_addr(i) implies i == index by {
                assert((i - index) * size == 0) by (nonlinear_arith)
                    requires
                        self.slots + i * size == self.slots + index * size,
                ;
                assert(i == index) by (nonlinear_arith)
                    requires
                        (i - index) * size == 0,
                        size > 0,
                ;
            }
        }
        match self.bitmap.get(index) {
            Ok(true) => {},
            _ => return false,
        }
        let _ = self.cache.push(index);
        let _ = self.bitmap.clear(index);
        proof {
            if self.is_live(ptr as int) {
                let j = choose|j: int| 0 <= j < self.slot_count() && self.used()[j] && ptr == self.slot_addr(j);
                let size = self.class.size.0 as int;
                assert((j - index) * size == 0) by (nonlinear_arith)
                    requires
                        self.slots + j * size == self.slots + index * size,
                ;
                assert(j == index) by (nonlinear_arith)
                    requires
                        (j - index) * size == 0,
                        size > 0,
                ;
            }
            assert forall|k: int| 0 <= k < self.cache@.len() implies (#[trigger] self.cache@[k])
                < self.bitmap@.len() && !self.bitmap@[self.cache@[k] as int] by {
                if k < before.cache@.len() {
                    assert(self.cache@[k] == before.cache@[k]);
                }
            }
            assert forall|k: int, l: int| 0 <= k < l < self.cache@.len() implies #[trigger] self.cache@[k]
                != #[trigger] self.cache@[l] by {
                if l == before.cache@.len() {
                    assert(self.cache@[k] == before.cache@[k]);
                    assert(!before.bitmap@[before.cache@[k] as int]);
                } else {
                    assert(self.cache@[k] == before.cache@[k]);
                    assert(self.cache@[l] == before.cache@[l]);
                }
            }
        }
        true
    }
}

/// A live slot lies among the segment's slots, a whole number of slots from the
/// first, and is aligned as its class asks.
pub proof fn lemma_live_slot_placement(s: Segment, p: int)
    requires
        s.wf(),
        s.is_live(p),
    ensures
        s.spec_slots() <= p < s.spec_end(),
        (p - s.spec_slots()) % (s.spec_class().size.0 as int) == 0,
        p % (s.spec_class().align.0 as int) == 0,
{
    let i = choose|i: int| 0 <= i < s.slot_count() && s.used()[i] && p == s.slot_addr(i);
    let size = s.spec_class().size.0 as int;
    let align = s.spec_class().align.0 as int;
    let n = s.slot_count() as int;
    assert(0 <= i * size < n * size) by (nonlinear_arith)
        requires
            0 <= i < n,
            size > 0,
    ;
    vstd::arithmetic::div_mod::lemma_mod_multiples_basic(i, size);
    crate::arith::lemma_div_mod_split(size, align);
    crate::arith::lemma_div_mod_split(s.spec_slots(), align);
    let q = size / align;
    let t = s.spec_slots() / align;
    assert(p == (t + i * q) * align) by (nonlinear_arith)
        requires
            p == s.spec_slots() + i * size,
            size == q * align,
            s.spec_slots() == t * align,
    ;
    vstd::arithmetic::div_mod::lemma_mod_multiples_basic(t + i * q, align);
}

/// Handing out a slot and taking it back leaves the segment's slots in use as
/// they were.
pub proof fn lemma_alloc_dealloc_round_trip(s0: Segment, s1: Segment, s2: Segment, p: int)
    requires
        s0.wf(),
        !s0.spec_is_full(),
        s1.spec_class() == s0.spec_class(),
        s1.spec_slots() == s0.spec_slots(),
        s1.used() == s0.used().update(s0.next_index(), true),
        p == s0.slot_addr(s0.next_index()),
        0 <= s0.next_index() < s0.slot_count(),
        !s0.used()[s0.next_index()],
        s2.used() == s1.used().update((p - s1.spec_slots()) / (s1.spec_class().size.0 as int), false),
    ensures
        s2.used() == s0.used(),
{
    let i = s0.next_index();
    let size = s0.spec_class().size.0 as int;
    lemma_size_at_least_align(s0.spec_class());
    crate::arith::lemma_compose(i, 0, size);
    assert((p - s1.spec_slots()) / size == i);
    assert(s2.used() =~= s0.used());
}

/// The number of set bits in a segment's bitmap is the number of its slots
/// that are handed out.
pub proof fn lemma_segment_count(s: Segment)
    requires
        s.wf(),
    ensures
        s.live_addrs().finite(),
        s.live_addrs().len() == count_set(s.used()),
        forall|p: int| #[trigger] s.live_addrs().contains(p) <==> s.is_live(p),
{
    let f = |i: int| s.slot_addr(i);
    let x = set_positions(s.used());
    lemma_count_is_size(s.used());
    let size = s.spec_class().size.0 as int;
    assert forall|a: int, b: int| x.contains(a) && x.contains(b) && #[trigger] f(a) == #[trigger] f(b) implies a == b by {
        assert((a - b) * size == 0) by (nonlinear_arith)
            requires
                s.spec_slots() + a * size == s.spec_slots() + b * size,
        ;
        assert(a == b) by (nonlinear_arith)
            requires
                (a - b) * size == 0,
                size > 0,
        ;
    }
    vstd::set_lib::lemma_map_size(x, x.map(f), f);
    assert(s.live_addrs() == x.map(f));
    assert forall|p: int| #[trigger] x.map(f).contains(p) <==> s.is_live(p) by {
        if s.is_live(p) {
            let i = choose|i: int| 0 <= i < s.slot_count() && s.used()[i] && p == s.slot_addr(i);
            assert(x.contains(i));
            assert(f(i) == p);
        }
    }
}

} // verus!
