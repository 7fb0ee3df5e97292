//! Page-entry attribute bits as the early paging code names them.

use vstd::prelude::*;

verus! {

/// A set of page-table entry attribute bits.
#[derive(Clone, Copy, PartialEq, Eq, Structural, Debug)]
pub struct PageFlags(pub u64);

/// Present.
pub const FLAG_PRESENT: u64 = 0x1;
/// Writable.
pub const FLAG_WRITABLE: u64 = 0x2;
/// User accessible.
pub const FLAG_USER: u64 = 0x4;
/// Write-through caching.
pub const FLAG_WRITE_THROUGH: u64 = 0x8;
/// Caching disabled.
pub const FLAG_CACHE_DISABLE: u64 = 0x10;
/// Huge page.
pub const FLAG_HUGE: u64 = 0x80;
/// Not executable.
pub const FLAG_NO_EXECUTE: u64 = 0x8000_0000_0000_0000;
/// A kernel read-write page: present and writable.
pub const FLAG_KERNEL_RW: u64 = 0x3;

impl PageFlags {
    /// The raw bits.
    pub fn bits(self) -> (r: u64)
        ensures
            r == self.0,
    {
        self.0
    }

    /// No bit set.
    pub fn empty() -> (r: Self)
        ensures
            r.0 == 0,
    {
        PageFlags(0)
    }

    /// Every bit of `other` is set in `self`.
    pub fn contains(self, other: Self) -> (r: bool)
        ensures
            r == (self.0 & other.0 == other.0),
    {
        (self.0 & other.0) == other.0
    }

    /// The bits set in either.
    pub fn union(self, other: Self) -> (r: Self)
        ensures
            r.0 == self.0 | other.0,
    {
        PageFlags(self.0 | other.0)
    }
}

} // verus!
