//! The operating system's side of the allocator: reserving, committing and
//! releasing page ranges, given as start address and length.
use vstd::prelude::*;

use crate::config::{CACHE_LINE, PAGE_SIZE};

verus! {

#[derive(Debug, Clone, Copy, PartialEq, Eq, Structural)]
pub enum MapError {
    InvalidSize,
    OutOfMemory,
    CommitFailed,
    DecommitFailed,
    ProtectFailed,
}

/// One kind of access a page can allow.
#[derive(Debug, Clone, Copy, PartialEq, Eq, Structural)]
pub enum Protection {
    Read,
    Write,
}

/// The accesses a range of pages allows; none at all means inaccessible.
#[derive(Debug, Clone, Copy, PartialEq, Eq, Structural)]
pub struct Permissions {
    pub read: bool,
    pub write: bool,
}

impl Permissions {
    pub fn none() -> (r: Self)
        ensures
            !r.read && !r.write,
    {
        Permissions { read: false, write: false }
    }

    pub fn read_write() -> (r: Self)
        ensures
            r.read && r.write,
    {
        Permissions { read: true, write: true }
    }

    pub fn contains(&self, p: Protection) -> (r: bool)
        ensures
            r == match p {
                Protection::Read => self.read,
                Protection::Write => self.write,
            },
    {
        match p {
            Protection::Read => self.read,
            Protection::Write => self.write,
        }
    }

    pub fn is_empty(&self) -> (r: bool)
        ensures
            r == (!self.read && !self.write),
    {
        !self.read && !self.write
    }
}

/// Marker for mappers that may be shared between threads.
pub trait MapperRequires: Send + Sync {}

/// Reserves and releases ranges of the address space. Addresses are plain
/// integers here; implementations work on the pages behind them.
pub trait Mapper: MapperRequires {
    /// Reserves at least `size` bytes, inaccessible, and returns their start.
    fn map(&self, size: usize) -> Result<usize, MapError>;

    /// Releases a reservation made by `map`.
    fn unmap(&self, addr: usize, size: usize);

    /// Tells the system the pages' contents are no longer needed.
    fn decommit(&self, addr: usize, size: usize) -> Result<(), MapError>;

    /// Sets the accesses the pages allow; read and write commits them.
    fn protect(&self, addr: usize, size: usize, prot: Permissions) -> Result<(), MapError>;
}

/// Bytes in a page.
pub fn page_size() -> (r: usize)
    ensures
        r == PAGE_SIZE,
{
    PAGE_SIZE
}

/// Bytes in a cache line.
pub fn cache_line_size() -> (r: usize)
    ensures
        r == CACHE_LINE,
{
    CACHE_LINE
}

/// `size` rounded up to a whole number of pages.
pub fn page_align(size: usize) -> (r: Option<usize>)
    ensures
        size + PAGE_SIZE - 1 <= usize::MAX ==> (r matches Some(v) && v % PAGE_SIZE == 0 && size
                <= v < size + PAGE_SIZE),
        size + PAGE_SIZE - 1 > usize::MAX ==> r is None,
{
    if size > usize::MAX - (PAGE_SIZE - 1) {
        return None;
    }
    let v = (size + (PAGE_SIZE - 1)) / PAGE_SIZE * PAGE_SIZE;
    Some(v)
}

/// Start of the page that holds `addr`.
pub fn page_align_ptr(addr: usize) -> (r: usize)
    ensures
        r % PAGE_SIZE == 0,
        r <= addr < r + PAGE_SIZE,
{
    addr - addr % PAGE_SIZE
}

} // verus!
