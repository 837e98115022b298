//! Compile-time parameters of the allocator and the rounding helpers they use.
use vstd::prelude::*;

use crate::arith::lemma_div_mod_split;

verus! {

/// Number of size classes.
pub const SIZES: usize = 84;

pub const ONE: usize = 1;

/// Bytes in a machine word.
pub const WORD: usize = 8;

/// log2 of `WORD`.
pub const SHIFT: usize = 3;

pub const MIN_ALIGN: usize = 8;

pub const MIN_SIZE: usize = 8;

/// Bytes in a cache line.
pub const CACHE_LINE: usize = 64;

/// The largest alignment a header needs: a cache line, or two words if that is more.
pub const MAX_ALIGN: usize = 64;

/// Bytes in a page, the granularity of every mapping.
pub const PAGE_SIZE: usize = 4096;

pub const ARENA_SHIFT: usize = 26;

/// Size of the first arenas: 2^26 bytes.
pub const ARENA_INITIAL_SIZE: usize = 67108864;

pub const ARENA_GROWTH: usize = 2;

/// Arenas added between two growths of the next arena's size.
pub const ARENA_STEP: usize = 4;

/// Most arenas the registry holds.
pub const ARENA_LIMIT: usize = 80;

pub const SEGMENT_SHIFT: usize = 19;

/// Size of a segment: 2^19 bytes.
pub const SEGMENT_SIZE: usize = 524288;

/// Below this size classes step by their alignment.
pub const SMALL_SC_LIMIT: usize = 256;

/// Below this size classes step by twice their alignment.
pub const MEDIUM_SC_LIMIT: usize = 8192;

/// The largest size class; larger requests get a mapping of their own.
pub const LARGE_SC_LIMIT: usize = 262144;

pub const SMALL_ALIGN_LIMIT: usize = 64;

pub const MEDIUM_ALIGN_LIMIT: usize = 1024;

pub const LARGE_ALIGN_RATIO: usize = 8;

/// A remote list longer than this is drained on the owner's next operation.
pub const REMOTE_BATCH_SIZE: usize = 32;

/// Every this many operations the owner drains its remote list.
pub const REMOTE_CHECK_FREQUENCY: usize = 16;

/// Most remote frees handled in one drain.
pub const REMOTE_MAX_BATCH: usize = 64;

/// Free segments a queue keeps before it hands the excess back to its arena.
pub const QUEUE_THRESHOLD: usize = 12;

/// Smallest multiple of `align` at or above `size`, saturating at the largest
/// multiple that fits in a `usize`.
pub open spec fn spec_align_up(size: usize, align: usize) -> int {
    if align <= 1 {
        size as int
    } else {
        let add = if size + align - 1 <= usize::MAX {
            size + align - 1
        } else {
            usize::MAX as int
        };
        (add / (align as int)) * align
    }
}

pub open spec fn is_power_of_two(a: nat) -> bool
    decreases a,
{
    if a <= 1 {
        a == 1
    } else {
        a % 2 == 0 && is_power_of_two(a / 2)
    }
}

/// Of two powers of two, the larger is a multiple of the smaller.
pub proof fn lemma_power_of_two_divides(a: nat, b: nat)
    requires
        is_power_of_two(a),
        is_power_of_two(b),
        a <= b,
    ensures
        b % a == 0,
    decreases a,
{
    if a > 1 {
        assert(b > 1);
        lemma_power_of_two_divides(a / 2, b / 2);
        let q = (b / 2) / (a / 2);
        crate::arith::lemma_div_mod_split((b / 2) as int, (a / 2) as int);
        assert(b == q * a) by (nonlinear_arith)
            requires
                b / 2 == q * (a / 2),
                b % 2 == 0,
                a % 2 == 0,
                b == 2 * (b / 2),
                a == 2 * (a / 2),
        ;
        vstd::arithmetic::div_mod::lemma_mod_multiples_basic(q as int, a as int);
    }
}

/// A multiple of `b` is a multiple of every divisor `a` of `b`.
pub proof fn lemma_mod_transitive(x: int, a: int, b: int)
    requires
        a > 0,
        b > 0,
        x % b == 0,
        b % a == 0,
    ensures
        x % a == 0,
{
    crate::arith::lemma_div_mod_split(b, a);
    if x >= 0 {
        crate::arith::lemma_div_mod_split(x, b);
        let q = (x / b) * (b / a);
        assert(x == q * a) by (nonlinear_arith)
            requires
                x == (x / b) * b,
                b == (b / a) * a,
                q == (x / b) * (b / a),
        ;
        vstd::arithmetic::div_mod::lemma_mod_multiples_basic(q, a);
    } else {
        vstd::arithmetic::div_mod::lemma_fundamental_div_mod(x, b);
        let q = (x / b) * (b / a);
        assert(x == q * a) by (nonlinear_arith)
            requires
                x == (x / b) * b,
                b == (b / a) * a,
                q == (x / b) * (b / a),
        ;
        vstd::arithmetic::div_mod::lemma_mod_multiples_basic(q, a);
    }
}

pub fn align_up(size: usize, align: usize) -> (r: usize)
    ensures
        r == spec_align_up(size, align),
{
    if align <= 1 {
        return size;
    }
    let mask = align - 1;
    let add = size.saturating_add(mask);
    proof {
        lemma_div_mod_split(add as int, align as int);
        assert((add / align) * align <= add) by (nonlinear_arith)
            requires
                add == (add / align) * align + add % align,
                add % align >= 0,
        ;
    }
    (add / align) * align
}

/// What `align_up` gives when nothing saturates: the next multiple of `align`.
pub proof fn lemma_align_up(size: usize, align: usize)
    requires
        align > 0,
        size + align - 1 <= usize::MAX,
    ensures
        size <= spec_align_up(size, align) < size + align,
        spec_align_up(size, align) % (align as int) == 0,
{
    if align > 1 {
        let add = size + align - 1;
        lemma_div_mod_split(add, align as int);
        let q = add / (align as int);
        assert(size <= q * align < size + align) by (nonlinear_arith)
            requires
                add == q * align + add % (align as int),
                0 <= add % (align as int) < align,
                add == size + align - 1,
        ;
        vstd::arithmetic::div_mod::lemma_mod_multiples_basic(q, align as int);
    }
}

/// How far `align_slice` moves the start of `[start, start + len)`.
pub open spec fn slice_offset(start: usize, len: usize, align: usize) -> int {
    if align <= 1 {
        0
    } else {
        let gap = if spec_align_up(start, align) >= start {
            spec_align_up(start, align) - start
        } else {
            0
        };
        if gap < len {
            gap
        } else {
            len as int
        }
    }
}

/// What remains of `[start, start + len)` once its start is rounded up to
/// `align`: empty when the rounding passes the end.
pub fn align_slice(start: usize, len: usize, align: usize) -> (r: (usize, usize))
    requires
        start + len <= usize::MAX,
    ensures
        r.0 == start + slice_offset(start, len, align),
        r.1 == len - slice_offset(start, len, align),
{
    if align <= 1 {
        return (start, len);
    }
    let aligned = align_up(start, align);
    let gap = aligned.saturating_sub(start);
    let offset = if gap < len {
        gap
    } else {
        len
    };
    (start + offset, len - offset)
}

} // verus!
