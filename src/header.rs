//! The layout that the C interface wraps around each allocation: a header with
//! a canary before the user bytes, the header's offset in the word just before
//! them, and a trailer with a second canary after them.
use vstd::prelude::*;

use crate::config::{
    align_up, is_power_of_two, lemma_align_up, spec_align_up, LARGE_SC_LIMIT, MEDIUM_ALIGN_LIMIT, MIN_ALIGN,
    WORD,
};

verus! {

pub const METADATA_CANARY: u32 = 0xDEADBEEF;

pub const TRAILER_CANARY: u32 = 0xBEEFDEAD;

/// Bytes of a header: base pointer, canary, full size and alignment, user
/// offset and user alignment.
pub const METADATA_SIZE: usize = 40;

pub const METADATA_ALIGN: usize = 8;

/// Bytes of a trailer: canary and user offset.
pub const TRAILER_SIZE: usize = 8;

pub const TRAILER_ALIGN: usize = 4;

/// The address handed out for a request of zero bytes.
pub const ZERO_SIZE_PTR: usize = 64;

/// Largest size a layout may have.
pub const ISIZE_MAX: usize = usize::MAX / 2;

/// The header in front of a C allocation.
#[derive(Debug, Clone, Copy, PartialEq, Eq, Structural)]
pub struct Metadata {
    pub ptr: usize,
    pub canary: u32,
    pub layout_size: usize,
    pub layout_align: usize,
    pub uoffset: u32,
    pub ualign: u32,
}

impl Metadata {
    pub fn new(ptr: usize, layout_size: usize, layout_align: usize, uoffset: u32, ualign: u32) -> (r: Self)
        ensures
            r == (Metadata { ptr, canary: METADATA_CANARY, layout_size, layout_align, uoffset, ualign }),
    {
        Metadata { ptr, canary: METADATA_CANARY, layout_size, layout_align, uoffset, ualign }
    }

    pub fn validate_canary(&self) -> (r: bool)
        ensures
            r == (self.canary == METADATA_CANARY),
    {
        self.canary == METADATA_CANARY
    }

    /// The canary is intact and the base pointer is set.
    pub fn is_valid(&self) -> (r: bool)
        ensures
            r == (self.canary == METADATA_CANARY && self.ptr != 0),
    {
        self.validate_canary() && self.ptr != 0
    }
}

/// The trailer behind a C allocation.
#[derive(Debug, Clone, Copy, PartialEq, Eq, Structural)]
pub struct Trailer {
    pub canary: u32,
    pub uoffset: u32,
}

impl Trailer {
    pub fn new(uoffset: u32) -> (r: Self)
        ensures
            r == (Trailer { canary: TRAILER_CANARY, uoffset }),
    {
        Trailer { canary: TRAILER_CANARY, uoffset }
    }

    pub fn validate_canary(&self) -> (r: bool)
        ensures
            r == (self.canary == TRAILER_CANARY),
    {
        self.canary == TRAILER_CANARY
    }

    /// The canary is intact and the offset agrees with the header's.
    pub fn is_valid(&self, expected_offset: u32) -> (r: bool)
        ensures
            r == (self.canary == TRAILER_CANARY && self.uoffset == expected_offset),
    {
        self.validate_canary() && self.uoffset == expected_offset
    }
}

/// Both canaries are intact and agree: the allocation can be trusted.
pub open spec fn spec_intact(m: Metadata, t: Trailer) -> bool {
    m.canary == METADATA_CANARY && m.ptr != 0 && t.canary == TRAILER_CANARY && t.uoffset == m.uoffset
}

/// Whether a header and trailer read back from memory can be trusted.
pub fn validate(m: &Metadata, t: &Trailer) -> (r: bool)
    ensures
        r == spec_intact(*m, *t),
{
    m.is_valid() && t.is_valid(m.uoffset)
}

/// Where the user bytes start, for a request aligned to `user_align`.
pub open spec fn spec_user_offset(user_align: usize) -> int {
    spec_align_up((METADATA_SIZE + WORD) as usize, user_align)
}

/// The whole block for a request of `size` bytes aligned to `align`: its size,
/// its alignment and the offset of the user bytes. The user bytes follow the
/// header and the offset word, the trailer follows them at its alignment, and
/// none is given when the block would be too large for a layout.
pub fn calculate_total_layout(size: usize, align: usize) -> (r: Option<(usize, usize, usize)>)
    requires
        is_power_of_two(align as nat),
    ensures
        size == 0 ==> r == Some((MIN_ALIGN, MIN_ALIGN, 0usize)),
        size > 0 ==> match r {
            Some((total, total_align, user)) => {
                &&& user == spec_user_offset(align)
                &&& user >= METADATA_SIZE + WORD
                &&& user % align == 0
                &&& user + size <= ISIZE_MAX
                &&& total_align == (if align > METADATA_ALIGN { align } else { METADATA_ALIGN })
                &&& total == spec_align_up((user + size) as usize, TRAILER_ALIGN) + TRAILER_SIZE
                &&& total + total_align - 1 <= ISIZE_MAX
            },
            None => {
                let user = spec_user_offset(align);
                let ta = if align > METADATA_ALIGN { align } else { METADATA_ALIGN };
                ||| align + METADATA_SIZE + WORD > usize::MAX
                ||| user + size > ISIZE_MAX
                ||| spec_align_up((user + size) as usize, TRAILER_ALIGN) + TRAILER_SIZE + ta - 1 > ISIZE_MAX
            },
        },
{
    if size == 0 {
        return Some((MIN_ALIGN, MIN_ALIGN, 0));
    }
    let total_align = if align > METADATA_ALIGN {
        align
    } else {
        METADATA_ALIGN
    };
    let marker_end = METADATA_SIZE + WORD;
    if align > usize::MAX - marker_end {
        return None;
    }
    let user_start = align_up(marker_end, align);
    proof {
        if align > 0 {
            lemma_align_up(marker_end, align);
        }
    }
    if size > ISIZE_MAX || user_start > ISIZE_MAX - size {
        return None;
    }
    let user_end = user_start + size;
    let trailer_start = align_up(user_end, TRAILER_ALIGN);
    proof {
        lemma_align_up(user_end, TRAILER_ALIGN);
    }
    let total_size = trailer_start + TRAILER_SIZE;
    if total_size > ISIZE_MAX || total_align - 1 > ISIZE_MAX - total_size {
        return None;
    }
    Some((total_size, total_align, user_start))
}

/// User bytes available in a block of `layout_size` bytes whose user bytes
/// start `uoffset` bytes in; zero when the numbers cannot describe a block.
pub fn calculate_user_size(layout_size: usize, uoffset: u32) -> (r: usize)
    ensures
        layout_size >= uoffset + TRAILER_SIZE ==> r == layout_size - uoffset - TRAILER_SIZE,
        layout_size < uoffset + TRAILER_SIZE ==> r == 0,
{
    let off = uoffset as usize;
    if layout_size < off || layout_size - off < TRAILER_SIZE {
        return 0;
    }
    layout_size - off - TRAILER_SIZE
}

/// Where the header of the allocation at `user_addr` starts, given the offset
/// word stored just before it; none when that cannot be a header.
pub fn header_addr(user_addr: usize, offset: usize) -> (r: Option<usize>)
    ensures
        r == (if user_addr >= WORD && (user_addr - WORD) % (WORD as int) == 0 && 0 < offset <= user_addr
            && (user_addr - offset) % (METADATA_ALIGN as int) == 0 {
            Some((user_addr - offset) as usize)
        } else {
            None
        }),
{
    if user_addr < WORD {
        return None;
    }
    let marker = user_addr - WORD;
    if marker % WORD != 0 {
        return None;
    }
    if offset == 0 || offset > user_addr {
        return None;
    }
    let header = user_addr - offset;
    if header % METADATA_ALIGN != 0 {
        return None;
    }
    Some(header)
}

/// Where the trailer of an allocation of `size` user bytes at `user_addr` starts.
pub fn trailer_addr(user_addr: usize, size: usize) -> (r: Option<usize>)
    ensures
        user_addr + size + TRAILER_ALIGN - 1 <= usize::MAX ==> r == Some(
            spec_align_up((user_addr + size) as usize, TRAILER_ALIGN) as usize,
        ),
        user_addr + size + TRAILER_ALIGN - 1 > usize::MAX ==> r is None,
{
    if user_addr > usize::MAX - size || user_addr + size > usize::MAX - (TRAILER_ALIGN - 1) {
        return None;
    }
    Some(align_up(user_addr + size, TRAILER_ALIGN))
}

/// `aligned_alloc` accepts a power-of-two alignment and a size that is a
/// multiple of it.
pub fn aligned_alloc_accepts(alignment: usize, size: usize) -> (r: bool)
    ensures
        r == (alignment != 0 && alignment & ((alignment - 1) as usize) == 0 && size % alignment == 0),
{
    alignment != 0 && alignment & (alignment - 1) == 0 && size % alignment == 0
}

/// `posix_memalign` accepts a power-of-two alignment that is a multiple of the
/// pointer size.
pub fn posix_memalign_accepts(alignment: usize) -> (r: bool)
    ensures
        r == (alignment != 0 && alignment & ((alignment - 1) as usize) == 0 && alignment % WORD == 0),
{
    alignment != 0 && alignment & (alignment - 1) == 0 && alignment % WORD == 0
}

/// The heap block that carries a C block of `total` bytes aligned to
/// `total_align`: the C block is preceded by `total_align` bytes whose last
/// word records which heap owns the block. Gives the block's size and the
/// offset of the C block in it; none when it would be too large.
pub fn owned_block(total: usize, total_align: usize) -> (r: Option<(usize, usize)>)
    requires
        total_align >= WORD,
    ensures
        total + total_align <= ISIZE_MAX ==> r == Some(((total + total_align) as usize, total_align)),
        total + total_align > ISIZE_MAX ==> r is None,
{
    if total > ISIZE_MAX || total_align > ISIZE_MAX - total {
        return None;
    }
    Some((total + total_align, total_align))
}

/// Where the word naming the owner of the C block at `base` lies: just
/// before the block.
pub fn owner_addr(base: usize) -> (r: usize)
    requires
        base >= WORD,
    ensures
        r == base - WORD,
{
    base - WORD
}

/// The owner word of a C block lies in the bytes before it, inside its heap
/// block, and shares no byte with the header or with the offset word before
/// the user bytes.
pub proof fn lemma_owner_word_apart(block: int, prefix: int, user_offset: int)
    requires
        prefix >= WORD,
        user_offset >= METADATA_SIZE + WORD,
    ensures
        ({
            let base = block + prefix;
            let owner = base - WORD;
            &&& block <= owner
            &&& owner + WORD <= base
            &&& owner + WORD <= base + user_offset - WORD
        }),
{
}

/// The heap block behind the C block at `base` with a full size of
/// `layout_size` bytes aligned to `layout_align`: its start and size.
pub fn block_of(base: usize, layout_size: usize, layout_align: usize) -> (r: Option<(usize, usize)>)
    ensures
        base >= layout_align && layout_size + layout_align <= usize::MAX ==> r == Some(
            ((base - layout_align) as usize, (layout_size + layout_align) as usize),
        ),
        !(base >= layout_align && layout_size + layout_align <= usize::MAX) ==> r is None,
{
    if base < layout_align || layout_size > usize::MAX - layout_align {
        return None;
    }
    Some((base - layout_align, layout_size + layout_align))
}

/// The size to ask a heap for, for a block of `size` bytes aligned to
/// `align`: an alignment above every class's sends the block to a mapping of
/// its own, which takes a size above the largest class.
pub fn block_request(size: usize, align: usize) -> (r: usize)
    ensures
        align > MEDIUM_ALIGN_LIMIT && size <= LARGE_SC_LIMIT ==> r == LARGE_SC_LIMIT + 1,
        !(align > MEDIUM_ALIGN_LIMIT && size <= LARGE_SC_LIMIT) ==> r == size,
{
    if align > MEDIUM_ALIGN_LIMIT && size <= LARGE_SC_LIMIT {
        LARGE_SC_LIMIT + 1
    } else {
        size
    }
}

/// Whether `realloc` can keep an allocation with `usable` user bytes for a
/// request of `new_size` bytes.
pub fn realloc_in_place(usable: usize, new_size: usize) -> (r: bool)
    ensures
        r == (new_size <= usable),
{
    new_size <= usable
}

/// Bytes `realloc` copies from the old allocation to the new one.
pub fn realloc_copy_size(old_size: usize, new_size: usize) -> (r: usize)
    ensures
        r == if old_size < new_size {
            old_size
        } else {
            new_size
        },
{
    if old_size < new_size {
        old_size
    } else {
        new_size
    }
}

/// A block laid out by `calculate_total_layout` leaves room for the header
/// and the offset word before the user bytes and for the trailer after them,
/// and the header and trailer it is given are found intact.
pub proof fn lemma_fresh_block(size: usize, align: usize, total: usize, user: usize, base: usize)
    requires
        size > 0,
        is_power_of_two(align as nat),
        calculate_layout_result(size, align, total, user),
        base != 0,
    ensures
        METADATA_SIZE <= user - WORD,
        user + size <= total - TRAILER_SIZE,
        spec_intact(
            Metadata {
                ptr: base,
                canary: METADATA_CANARY,
                layout_size: total,
                layout_align: if align > METADATA_ALIGN { align } else { METADATA_ALIGN },
                uoffset: user as u32,
                ualign: align as u32,
            },
            Trailer { canary: TRAILER_CANARY, uoffset: user as u32 },
        ),
{
    lemma_align_up((user + size) as usize, TRAILER_ALIGN);
}

/// What `calculate_total_layout` returns when it succeeds.
pub open spec fn calculate_layout_result(size: usize, align: usize, total: usize, user: usize) -> bool {
    &&& user == spec_user_offset(align)
    &&& user >= METADATA_SIZE + WORD
    &&& user + size + TRAILER_ALIGN - 1 <= usize::MAX
    &&& total == spec_align_up((user + size) as usize, TRAILER_ALIGN) + TRAILER_SIZE
}

} // verus!
