//! Read-only access to the boot RAM disk image.

use vstd::prelude::*;

verus! {

/// Bytes per sector.
pub const SECTOR_SIZE: usize = 512;

/// The RAM disk: the image's bytes and the address they start at.
pub struct RamDisk<'a> {
    base: usize,
    data: &'a [u8],
}

impl<'a> RamDisk<'a> {
    /// The image bytes.
    pub closed spec fn bytes(&self) -> Seq<u8> {
        self.data@
    }

    /// The image's start address.
    pub closed spec fn spec_base(&self) -> usize {
        self.base
    }

    /// A disk over `data`, which starts at address `base`.
    pub fn new(base: usize, data: &'a [u8]) -> (r: Self)
        ensures
            r.bytes() == data@,
            r.spec_base() == base,
    {
        RamDisk { base, data }
    }

    /// Size in bytes.
    pub fn size(&self) -> (r: usize)
        ensures
            r == self.bytes().len(),
    {
        self.data.len()
    }

    /// Number of whole sectors.
    pub fn sector_count(&self) -> (r: usize)
        ensures
            r == self.bytes().len() / (SECTOR_SIZE as nat),
    {
        self.data.len() / SECTOR_SIZE
    }

    /// Start address of the image.
    pub fn base(&self) -> (r: usize)
        ensures
            r == self.spec_base(),
    {
        self.base
    }

    /// The whole image.
    pub fn as_slice(&self) -> (r: &[u8])
        ensures
            r@ == self.bytes(),
    {
        self.data
    }

    /// Sector `lba`; `None` when it does not lie wholly inside the image.
    pub fn read_sector(&self, lba: usize) -> (r: Option<&[u8]>)
        ensures
            (lba + 1) * SECTOR_SIZE <= self.bytes().len() ==> (r matches Some(s)
                && s@ == self.bytes().subrange(lba * SECTOR_SIZE, lba * SECTOR_SIZE + SECTOR_SIZE)),
            (lba + 1) * SECTOR_SIZE > self.bytes().len() ==> r is None,
    {
        let n = self.data.len();
        if lba >= n / SECTOR_SIZE {
            proof {
                assert((lba + 1) * 512 > n) by (nonlinear_arith)
                    requires lba >= n / 512;
            }
            return None;
        }
        proof {
            assert((lba + 1) * 512 <= n) by (nonlinear_arith)
                requires lba < n / 512;
        }
        let offset = lba * SECTOR_SIZE;
        Some(&self.data[offset..offset + SECTOR_SIZE])
    }

    /// `len` bytes from `offset`; `None` when the range leaves the image
    /// (or its end overflows).
    pub fn read_bytes(&self, offset: usize, len: usize) -> (r: Option<&[u8]>)
        ensures
            offset + len <= self.bytes().len() ==> (r matches Some(s)
                && s@ == self.bytes().subrange(offset as int, offset + len)),
            offset + len > self.bytes().len() ==> r is None,
    {
        let n = self.data.len();
        match offset.checked_add(len) {
            None => None,
            Some(end) => {
                if end > n {
                    None
                } else {
                    Some(&self.data[offset..end])
                }
            },
        }
    }
}

} // verus!
