//! A large object: a mapping of its own holding a header and the user bytes.
use vstd::prelude::*;

use crate::config::{
    align_up, is_power_of_two, lemma_align_up, lemma_mod_transitive, lemma_power_of_two_divides,
    spec_align_up, CACHE_LINE, PAGE_SIZE,
};
use crate::mapper::{page_align_ptr, MapError, Mapper, Permissions};

verus! {

/// Bytes reserved at the base of a large mapping for its header.
pub const LARGE_HEADER_SIZE: usize = 48;

#[derive(Debug)]
pub enum LargeError {
    MapError(MapError),
    SizeOverflow,
}

pub struct Large {
    base: usize,
    total: usize,
    user: usize,
    len: usize,
}

/// Where the user bytes of a large object aligned to `align` start: after the
/// header, at a cache line or at `align` if that is more.
pub open spec fn spec_large_offset(align: usize) -> int {
    spec_align_up(LARGE_HEADER_SIZE, if align > CACHE_LINE { align } else { CACHE_LINE })
}

/// The user bytes of a large object aligned to `align` start `r` bytes after
/// its page-aligned base, inside its first page; none above a page.
pub fn user_offset(align: usize) -> (r: Option<usize>)
    requires
        is_power_of_two(align as nat),
    ensures
        align > PAGE_SIZE ==> r is None,
        align <= PAGE_SIZE ==> (r matches Some(o) && o == spec_large_offset(align) && 0 < o <= PAGE_SIZE
            && o % CACHE_LINE == 0 && o % align == 0),
{
    if align > PAGE_SIZE {
        return None;
    }
    let a = if align > CACHE_LINE {
        align
    } else {
        CACHE_LINE
    };
    let off = align_up(LARGE_HEADER_SIZE, a);
    proof {
        lemma_align_up(LARGE_HEADER_SIZE, a);
        reveal_with_fuel(is_power_of_two, 8);
        assert(is_power_of_two(64));
        lemma_power_of_two_divides(align as nat, a as nat);
        lemma_power_of_two_divides(64, a as nat);
        lemma_mod_transitive(off as int, align as int, a as int);
        lemma_mod_transitive(off as int, 64, a as int);
    }
    Some(off)
}

impl Large {
    /// Start and length of the mapping.
    pub closed spec fn spec_region(&self) -> (int, int) {
        (self.base as int, self.total as int)
    }

    /// Start of the user bytes.
    pub closed spec fn spec_user(&self) -> int {
        self.user as int
    }

    /// Number of user bytes.
    pub closed spec fn spec_len(&self) -> int {
        self.len as int
    }

    /// The header sits at the page-aligned base, the user bytes start at a
    /// cache line inside the first page and run to the end of the mapping.
    pub open spec fn wf(&self) -> bool {
        &&& self.spec_region().0 % PAGE_SIZE as int == 0
        &&& self.spec_region().0 < self.spec_user() <= self.spec_region().0 + PAGE_SIZE
        &&& self.spec_user() % CACHE_LINE as int == 0
        &&& self.spec_region().0 + self.spec_region().1 == self.spec_user() + self.spec_len()
        &&& self.spec_region().0 + self.spec_region().1 <= usize::MAX
    }

    /// The object for a mapping of `total` bytes at `base` whose user bytes
    /// start `offset` bytes in; the mapping is refused unless it is
    /// page-aligned and fits in the address space.
    pub fn place(base: usize, total: usize, offset: usize, size: usize) -> (r: Result<Large, LargeError>)
        requires
            total == offset + size,
            0 < offset <= PAGE_SIZE,
            offset % CACHE_LINE == 0,
        ensures
            base % PAGE_SIZE != 0 || base + total > usize::MAX ==> r matches Err(
                LargeError::MapError(MapError::InvalidSize),
            ),
            base % PAGE_SIZE == 0 && base + total <= usize::MAX ==> (r matches Ok(l) && l.wf()
                && l.spec_region() == (base as int, total as int) && l.spec_user() == base + offset
                && l.spec_len() == size),
    {
        if base % PAGE_SIZE != 0 || base > usize::MAX - total {
            return Err(LargeError::MapError(MapError::InvalidSize));
        }
        Large { base, total, user: base + offset, len: size }.into_ok()
    }

    fn into_ok(self) -> (r: Result<Large, LargeError>)
        ensures
            r == Ok::<Large, LargeError>(self),
    {
        Ok(self)
    }

    /// Maps `size` user bytes aligned to `align` behind a header and makes the
    /// whole mapping accessible.
    pub fn new<M: Mapper>(mapper: &M, size: usize, align: usize) -> (r: Result<Large, LargeError>)
        requires
            size > 0,
            is_power_of_two(align as nat),
        ensures
            align > PAGE_SIZE ==> r matches Err(LargeError::MapError(MapError::InvalidSize)),
            align <= PAGE_SIZE && size + spec_large_offset(align) > usize::MAX ==> r matches Err(
                LargeError::SizeOverflow,
            ),
            r matches Err(LargeError::SizeOverflow) ==> align <= PAGE_SIZE && size + spec_large_offset(align) > usize::MAX,
            r matches Ok(l) ==> l.wf() && l.spec_len() == size && l.spec_user() == l.spec_region().0
                + spec_large_offset(align) && l.spec_region().1 == size + spec_large_offset(align)
                && l.spec_user() % align as int == 0,
    {
        let offset = match user_offset(align) {
            Some(o) => o,
            None => return Err(LargeError::MapError(MapError::InvalidSize)),
        };
        let total = match size.checked_add(offset) {
            Some(t) => t,
            None => return Err(LargeError::SizeOverflow),
        };
        let base = match mapper.map(total) {
            Ok(b) => b,
            Err(e) => return Err(LargeError::MapError(e)),
        };
        let large = match Large::place(base, total, offset, size) {
            Ok(l) => l,
            Err(e) => {
                mapper.unmap(base, total);
                return Err(e);
            },
        };
        proof {
            reveal_with_fuel(is_power_of_two, 13);
            assert(is_power_of_two(PAGE_SIZE as nat));
            if align > 0 {
                lemma_power_of_two_divides(align as nat, PAGE_SIZE as nat);
                lemma_mod_transitive(base as int, align as int, PAGE_SIZE as int);
                let a = align as int;
                crate::arith::lemma_div_mod_split(base as int, a);
                crate::arith::lemma_div_mod_split(offset as int, a);
                let q = (base as int) / a + (offset as int) / a;
                assert(base + offset == q * a) by (nonlinear_arith)
                    requires
                        base == (base as int / a) * a,
                        offset == (offset as int / a) * a,
                        q == (base as int) / a + (offset as int) / a,
                ;
                vstd::arithmetic::div_mod::lemma_mod_multiples_basic(q, a);
            }
        }
        match mapper.protect(base, total, Permissions::read_write()) {
            Ok(()) => Ok(large),
            Err(e) => {
                mapper.unmap(base, total);
                Err(LargeError::MapError(e))
            },
        }
    }

    /// Start and length of the user bytes.
    pub fn user_slice(&self) -> (r: (usize, usize))
        ensures
            r.0 == self.spec_user(),
            r.1 == self.spec_len(),
    {
        (self.user, self.len)
    }

    pub fn contains_ptr(&self, ptr: usize) -> (r: bool)
        requires
            self.wf(),
        ensures
            r == (self.spec_user() <= ptr < self.spec_user() + self.spec_len()),
    {
        ptr >= self.user && ptr - self.user < self.len
    }

    /// Whether `ptr` leads back to this object: it falls among the user bytes,
    /// and its page holds the header or it is the start of the user bytes.
    pub fn from_user_ptr(&self, ptr: usize) -> (r: bool)
        requires
            self.wf(),
        ensures
            r == large_probe(*self, ptr as int),
    {
        (page_align_ptr(ptr) == self.base || ptr == self.user) && self.contains_ptr(ptr)
    }

    /// Returns the mapping to the system.
    pub fn release<M: Mapper>(self, mapper: &M) {
        mapper.unmap(self.base, self.total);
    }
}

/// `p` leads back to `l`: it lies among `l`'s user bytes, and either its page
/// starts `l`'s mapping or it is the start of the user bytes (which, for an
/// object aligned to a whole page, begin on the page after the header).
pub open spec fn large_probe(l: Large, p: int) -> bool {
    (p - p % (PAGE_SIZE as int) == l.spec_region().0 || p == l.spec_user()) && l.spec_user() <= p
        < l.spec_user() + l.spec_len()
}

/// The user pointer of a large object is cache-line aligned, lies inside it
/// with room for the request, and leads back to it; when the header and the
/// user pointer share a page, the user pointer's page is the header's.
pub proof fn lemma_large_placement(l: Large, n: int)
    requires
        l.wf(),
        l.spec_len() >= n > 0,
    ensures
        l.spec_user() % (CACHE_LINE as int) == 0,
        large_probe(l, l.spec_user()),
        l.spec_user() < l.spec_region().0 + PAGE_SIZE ==> l.spec_user() - l.spec_user() % (PAGE_SIZE as int)
            == l.spec_region().0,
        l.spec_user() + n <= l.spec_region().0 + l.spec_region().1,
{
    let b = l.spec_region().0;
    let u = l.spec_user();
    crate::arith::lemma_div_mod_split(b, PAGE_SIZE as int);
    if u < b + PAGE_SIZE {
        vstd::arithmetic::div_mod::lemma_fundamental_div_mod_converse(u, PAGE_SIZE as int, b / (PAGE_SIZE as int), u - b);
    }
}

} // verus!
