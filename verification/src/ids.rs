//! Identifiers and error codes shared by every module.

use vstd::prelude::*;
use vstd::std_specs::cmp::PartialOrdSpec;

verus! {

/// Bytes in one user page.
pub const USER_PAGE_SIZE: usize = 4096;

/// `USER_PAGE_SIZE` for 64-bit byte offsets.
pub const PAGE_BYTES: u64 = 4096;

/// Physical page number.
#[derive(Clone, Copy, Debug, PartialEq, Eq, PartialOrd, Ord, Hash, Structural)]
pub struct Ppn(pub usize);

/// Index of one page within a page-backed object.
#[derive(Clone, Copy, Debug, PartialEq, Eq, Ord, Hash, Structural)]
pub struct PageIndex(pub u64);

impl PartialOrd for PageIndex {
    fn partial_cmp(&self, other: &Self) -> (order: Option<std::cmp::Ordering>) {
        if self.0 < other.0 {
            Some(std::cmp::Ordering::Less)
        } else if self.0 == other.0 {
            Some(std::cmp::Ordering::Equal)
        } else {
            Some(std::cmp::Ordering::Greater)
        }
    }
}

impl vstd::std_specs::cmp::PartialOrdSpecImpl for PageIndex {
    open spec fn obeys_partial_cmp_spec() -> bool {
        true
    }

    open spec fn partial_cmp_spec(&self, other: &Self) -> Option<std::cmp::Ordering> {
        if self.0 < other.0 {
            Some(std::cmp::Ordering::Less)
        } else if self.0 == other.0 {
            Some(std::cmp::Ordering::Equal)
        } else {
            Some(std::cmp::Ordering::Greater)
        }
    }
}

impl PageIndex {
    pub fn new(value: u64) -> (page: Self)
        ensures
            page == PageIndex(value),
    {
        PageIndex(value)
    }

    pub fn as_u64(self) -> (value: u64)
        ensures
            value == self.0,
    {
        self.0
    }
}

/// Page indices are ordered and told apart as their numbers are.
pub proof fn law_page_indices_are_ordered_by_number(a: u64, b: u64)
    ensures
        PageIndex(a) == PageIndex(b) <==> a == b,
        PageIndex(a).partial_cmp_spec(&PageIndex(b)) == Some(std::cmp::Ordering::Less) <==> a < b,
        PageIndex(a).partial_cmp_spec(&PageIndex(b)) == Some(std::cmp::Ordering::Equal) <==> a
            == b,
        PageIndex(a).partial_cmp_spec(&PageIndex(b)) == Some(std::cmp::Ordering::Greater) <==> a
            > b,
{
}

/// Version of one page's contents. Zero is never produced by a transition.
#[derive(Clone, Copy, Debug, PartialEq, Eq, PartialOrd, Ord, Hash, Structural)]
pub struct PageGeneration(pub u64);

impl PageGeneration {
    pub fn new(raw: u64) -> (generation: Self)
        ensures
            generation == PageGeneration(raw),
    {
        PageGeneration(raw)
    }

    pub fn raw(self) -> (raw: u64)
        ensures
            raw == self.0,
    {
        self.0
    }
}

/// Identity of a page I/O request.
#[derive(Clone, Copy, Debug, PartialEq, Eq, PartialOrd, Ord, Hash, Structural)]
pub struct PageIoRequestId(pub u64);

impl PageIoRequestId {
    pub fn new(raw: u64) -> (id: Self)
        ensures
            id == PageIoRequestId(raw),
    {
        PageIoRequestId(raw)
    }

    pub fn raw(self) -> (raw: u64)
        ensures
            raw == self.0,
    {
        self.0
    }
}

/// Identity of a data lease: the pages that one transfer keeps alive.
#[derive(Clone, Copy, Debug, PartialEq, Eq, PartialOrd, Ord, Hash, Structural)]
pub struct IoDataLeaseId(pub u64);

impl IoDataLeaseId {
    pub fn new(raw: u64) -> (id: Self)
        ensures
            id == IoDataLeaseId(raw),
    {
        IoDataLeaseId(raw)
    }

    pub fn raw(self) -> (raw: u64)
        ensures
            raw == self.0,
    {
        self.0
    }
}

/// Identity of a filesystem object within its mount.
#[derive(Clone, Copy, Debug, PartialEq, Eq, PartialOrd, Ord, Hash, Structural)]
pub struct FsObjectId(pub u64);

impl FsObjectId {
    pub fn new(raw: u64) -> (id: Self)
        ensures
            id == FsObjectId(raw),
    {
        FsObjectId(raw)
    }

    pub fn as_u64(self) -> (raw: u64)
        ensures
            raw == self.0,
    {
        self.0
    }
}

/// Error numbers that page-backed operations produce or pass on.
#[derive(Clone, Copy, Debug, PartialEq, Eq, Structural)]
pub enum Errno {
    EAGAIN,
    EBUSY,
    EDQUOT,
    EINVAL,
    EIO,
    ENOMEM,
    ENOSYS,
    EOPNOTSUPP,
    EROFS,
    ESTALE,
    Other(i32),
}

/// Why the page allocator refused a frame or a pin.
#[derive(Clone, Copy, Debug, PartialEq, Eq, Structural)]
pub enum AllocError {
    /// No frame is free.
    Exhausted,
    /// The frame named is not live.
    InvalidRequest,
    AlreadyInstalled,
    Unavailable,
}

/// The successor of a wrapping counter that skips zero.
pub open spec fn next_nonzero(n: u64) -> u64 {
    if n == u64::MAX {
        1
    } else {
        (n + 1) as u64
    }
}

/// Advance a wrapping counter that never reads zero.
pub fn bump_nonzero(n: u64) -> (next: u64)
    ensures
        next == next_nonzero(n),
        next != 0,
        next != n,
{
    if n == u64::MAX {
        1
    } else {
        n + 1
    }
}

} // verus!
