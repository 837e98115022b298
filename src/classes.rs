//! The size-class table and the lookup from a request to its class.
use vstd::prelude::*;

use crate::arith::lemma_div_mod_split;
use crate::config::{
    align_slice, align_up, is_power_of_two, lemma_align_up, slice_offset, LARGE_ALIGN_RATIO,
    LARGE_SC_LIMIT, MEDIUM_ALIGN_LIMIT, MEDIUM_SC_LIMIT, MIN_ALIGN, MIN_SIZE, SIZES,
    SMALL_ALIGN_LIMIT, SMALL_SC_LIMIT, WORD, spec_align_up,
};

verus! {

#[derive(Debug, Clone, Copy, PartialEq, Eq, Structural)]
pub struct Size(pub usize);

#[derive(Debug, Clone, Copy, PartialEq, Eq, Structural)]
pub struct Align(pub usize);

/// One size class: every slot of a segment of this class has `size` bytes and
/// starts at a multiple of `align`.
#[derive(Debug, Clone, Copy, PartialEq, Eq, Structural)]
pub struct Class {
    pub size: Size,
    pub align: Align,
    pub id: usize,
}

/// How a span handed to a class is divided: a bitmap region for one bit per
/// slot that could fit, then the rest.
#[derive(Debug, Clone, Copy, PartialEq, Eq, Structural)]
pub struct Segmentation {
    pub bitmap_start: usize,
    pub bitmap_words: usize,
    pub rest_start: usize,
    pub rest_len: usize,
}

impl Class {
    /// Divides `[start, start + len)`: the start is aligned to a word, the
    /// bitmap takes one bit per slot of this class that the aligned span could
    /// hold, and the rest follows it.
    pub fn segment(&self, start: usize, len: usize) -> (r: Segmentation)
        requires
            valid_class(*self),
            start + len <= usize::MAX,
        ensures
            r.bitmap_start == start + slice_offset(start, len, WORD),
            r.bitmap_words == ((len - slice_offset(start, len, WORD)) / (self.size.0 as int) + 63)
                / 64,
            r.rest_start == r.bitmap_start + r.bitmap_words * 8,
            r.rest_start + r.rest_len == start + len,
    {
        let (aligned_start, aligned_len) = align_slice(start, len, WORD);
        proof {
            lemma_size_at_least_align(*self);
        }
        let objects = aligned_len / self.size.0;
        assert(objects <= aligned_len / 8) by (nonlinear_arith)
            requires
                objects == (aligned_len as int) / (self.size.0 as int),
                self.size.0 >= 8,
        ;
        let words = (objects + 63) / 64;
        proof {
            assert(objects * self.size.0 <= aligned_len) by (nonlinear_arith)
                requires
                    objects == (aligned_len as int) / (self.size.0 as int),
                    self.size.0 > 0,
            ;
            assert(words * 8 <= objects * self.size.0) by (nonlinear_arith)
                requires
                    words == (objects as int + 63) / 64,
                    self.size.0 >= 8,
                    objects >= 0,
            ;
        }
        let bytes = words * 8;
        Segmentation {
            bitmap_start: aligned_start,
            bitmap_words: words,
            rest_start: aligned_start + bytes,
            rest_len: aligned_len - bytes,
        }
    }

    pub fn new(size: usize, align: usize, id: usize) -> (r: Self)
        ensures
            r.size.0 == size,
            r.align.0 == align,
            r.id == id,
    {
        Class { size: Size(size), align: Align(align), id }
    }
}

/// A class whose alignment is a power of two of at least a word, and whose
/// size is a positive multiple of it.
pub open spec fn valid_class(c: Class) -> bool {
    &&& c.align.0 >= MIN_ALIGN
    &&& is_power_of_two(c.align.0 as nat)
    &&& c.size.0 > 0
    &&& c.size.0 % c.align.0 == 0
}

/// The class table: `SIZES` valid classes, `id` equal to the index, sizes
/// strictly increasing; the first eight classes are the word multiples up to
/// 64 bytes, and the last is `LARGE_SC_LIMIT` bytes aligned to
/// `MEDIUM_ALIGN_LIMIT`.
pub open spec fn valid_table(t: Seq<Class>) -> bool {
    &&& t.len() == SIZES
    &&& forall|i: int| 0 <= i < t.len() ==> (#[trigger] t[i]).id == i && valid_class(t[i])
    &&& forall|i: int, j: int| 0 <= i < j < t.len() ==> (#[trigger] t[i]).size.0 < (#[trigger] t[j]).size.0
    &&& forall|i: int| 0 <= i < 8 ==> (#[trigger] t[i]).size.0 == 8 * (i + 1) && t[i].align.0 == 8
    &&& t[SIZES - 1].size.0 == LARGE_SC_LIMIT
    &&& t[SIZES - 1].align.0 == MEDIUM_ALIGN_LIMIT
}

pub proof fn lemma_size_at_least_align(c: Class)
    requires
        valid_class(c),
    ensures
        c.size.0 >= c.align.0,
{
    lemma_div_mod_split(c.size.0 as int, c.align.0 as int);
    assert(c.size.0 >= c.align.0) by (nonlinear_arith)
        requires
            c.size.0 == (c.size.0 / c.align.0) * c.align.0,
            c.size.0 > 0,
            c.align.0 > 0,
    ;
}

/// A request of `size` bytes aligned to `align` can be served by `c`.
pub open spec fn fits(c: Class, size: usize, align: usize) -> bool {
    size <= c.size.0 && align <= c.align.0
}

pub open spec fn spec_size_to_align(size: int) -> int {
    if size <= SMALL_ALIGN_LIMIT {
        MIN_ALIGN as int
    } else if size <= MEDIUM_ALIGN_LIMIT {
        SMALL_ALIGN_LIMIT as int
    } else if size <= LARGE_SC_LIMIT {
        MEDIUM_ALIGN_LIMIT as int
    } else {
        size / (LARGE_ALIGN_RATIO as int)
    }
}

/// Alignment of the class that starts at `size`.
pub fn size_to_align(size: usize) -> (r: usize)
    ensures
        r == spec_size_to_align(size as int),
{
    if size <= SMALL_ALIGN_LIMIT {
        MIN_ALIGN
    } else if size <= MEDIUM_ALIGN_LIMIT {
        SMALL_ALIGN_LIMIT
    } else if size <= LARGE_SC_LIMIT {
        MEDIUM_ALIGN_LIMIT
    } else {
        size / LARGE_ALIGN_RATIO
    }
}

/// The unrounded size from which class `i` is built: it advances by the
/// class's alignment below 256 bytes, by twice it below 8 KiB, and by four
/// times it up to the largest class.
pub open spec fn class_start(i: int) -> int {
    if i <= 7 {
        8 * (i + 1)
    } else if i <= 11 {
        72 + 64 * (i - 8)
    } else if i <= 17 {
        264 + 128 * (i - 11)
    } else if i <= 21 {
        1032 + 2048 * (i - 17)
    } else {
        9224 + 4096 * (i - 21)
    }
}

/// The class built from starting size `start` at index `id`.
pub open spec fn class_from(start: int, id: int) -> Class {
    let align = spec_size_to_align(start);
    Class {
        size: Size(spec_align_up(start as usize, align as usize) as usize),
        align: Align(align as usize),
        id: id as usize,
    }
}

/// Builds the class table: class `i` rounds `class_start(i)` up to its
/// alignment, and the last class is the largest class size itself.
pub fn classes() -> (r: Vec<Class>)
    ensures
        valid_table(r@),
        forall|i: int| 0 <= i < SIZES - 1 ==> #[trigger] r@[i] == class_from(class_start(i), i),
        r@[SIZES - 1] == class_from(LARGE_SC_LIMIT as int, SIZES - 1),
{
    let mut table: Vec<Class> = Vec::new();
    let mut i: usize = 0;
    let mut size: usize = MIN_SIZE;
    proof {
        reveal_with_fuel(is_power_of_two, 11);
    }
    while i < SIZES - 1
        invariant
            i <= SIZES - 1,
            table@.len() == i,
            size == class_start(i as int),
            is_power_of_two(8),
            is_power_of_two(64),
            is_power_of_two(1024),
            forall|k: int| 0 <= k < i ==> (#[trigger] table@[k]).id == k && valid_class(table@[k]),
            forall|k: int| 0 <= k < i ==> #[trigger] table@[k] == class_from(class_start(k), k),
            forall|k: int, l: int|
                0 <= k < l < i ==> (#[trigger] table@[k]).size.0 < (#[trigger] table@[l]).size.0,
            forall|k: int| 0 <= k < i && k < 8 ==> (#[trigger] table@[k]).size.0 == 8 * (k + 1) && table@[k].align.0 == 8,
            i > 0 ==> class_start(i - 1) <= table@[i - 1].size.0 < class_start(i - 1)
                + spec_size_to_align(class_start(i - 1)),
        decreases SIZES - 1 - i,
    {
        let align = size_to_align(size);
        let aligned_size = align_up(size, align);
        proof {
            lemma_align_up(size, align);
            if i < 8 {
                assert(align == 8);
                assert(size % 8 == 0);
                assert(aligned_size == size);
            }
        }
        table.push(Class::new(aligned_size, align, i));
        if size < SMALL_SC_LIMIT {
            size = size + align;
        } else if size < MEDIUM_SC_LIMIT {
            size = size + align * 2;
        } else if size < LARGE_SC_LIMIT {
            size = size + align * 4;
        } else {
            size = size * 2;
        }
        i = i + 1;
    }
    let align = size_to_align(LARGE_SC_LIMIT);
    let aligned_size = align_up(LARGE_SC_LIMIT, align);
    proof {
        lemma_align_up(LARGE_SC_LIMIT, align);
        assert(aligned_size == LARGE_SC_LIMIT);
    }
    table.push(Class::new(aligned_size, align, SIZES - 1));
    table
}

/// The smallest class that serves `size` bytes aligned to `align`.
pub fn find_class(table: &[Class], size: usize, align: usize) -> (r: Option<&Class>)
    requires
        valid_table(table@),
    ensures
        size == 0 ==> r is None,
        size > 0 ==> (r is None <==> forall|i: int|
            0 <= i < table@.len() ==> !fits(#[trigger] table@[i], size, align)),
        r matches Some(c) ==> c.id < table@.len() && *c == table@[c.id as int] && fits(
            *c,
            size,
            align,
        ) && forall|j: int| 0 <= j < c.id ==> !fits(#[trigger] table@[j], size, align),
{
    if size == 0 {
        return None;
    }
    if align <= MIN_ALIGN && size <= table[7].size.0 {
        let rounded = (size + MIN_ALIGN - 1) / MIN_ALIGN;
        let index = rounded - 1;
        proof {
            assert(table@[index as int].size.0 == 8 * (index + 1));
            assert forall|j: int| 0 <= j < index implies !fits(#[trigger] table@[j], size, align) by {
                assert(table@[j].size.0 == 8 * (j + 1));
            }
        }
        return Some(&table[index]);
    }
    let mut low: usize = 0;
    let mut high: usize = SIZES;
    while low < high
        invariant
            valid_table(table@),
            0 <= low <= high <= SIZES,
            forall|j: int| 0 <= j < low ==> (#[trigger] table@[j]).size.0 < size,
            forall|j: int| high <= j < SIZES ==> size <= (#[trigger] table@[j]).size.0,
        decreases high - low,
    {
        let mid = (low + high) / 2;
        if size <= table[mid].size.0 {
            high = mid;
        } else {
            low = mid + 1;
        }
    }
    if low == SIZES {
        return None;
    }
    let mut index = low;
    while index < SIZES
        invariant
            valid_table(table@),
            low <= index <= SIZES,
            size > 0,
            forall|j: int| 0 <= j < low ==> (#[trigger] table@[j]).size.0 < size,
            forall|j: int| low <= j < SIZES ==> size <= (#[trigger] table@[j]).size.0,
            forall|j: int| low <= j < index ==> align > (#[trigger] table@[j]).align.0,
        decreases SIZES - index,
    {
        if align <= table[index].align.0 {
            return Some(&table[index]);
        }
        index = index + 1;
    }
    None
}

} // verus!
