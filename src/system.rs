//! Requests served straight from the operating system, when no heap can serve
//! them.
use vstd::prelude::*;

use crate::mapper::{MapError, Mapper, Permissions};

verus! {

/// The allocator as the process sees it.
pub struct TinyAlloc;

impl TinyAlloc {
    /// Maps `size` bytes and makes them readable and writable.
    pub fn os_alloc<M: Mapper>(&self, mapper: &M, size: usize) -> (r: Result<usize, MapError>)
        requires
            size > 0,
    {
        let addr = match mapper.map(size) {
            Ok(a) => a,
            Err(e) => return Err(e),
        };
        match mapper.protect(addr, size, Permissions::read_write()) {
            Ok(()) => Ok(addr),
            Err(e) => {
                mapper.unmap(addr, size);
                Err(e)
            },
        }
    }

    /// Returns a mapping made by `os_alloc`.
    pub fn os_dealloc<M: Mapper>(&self, mapper: &M, addr: usize, size: usize) {
        mapper.unmap(addr, size);
    }
}

} // verus!
