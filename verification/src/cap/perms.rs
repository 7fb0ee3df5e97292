//! Permission bits of a capability.

use vstd::prelude::*;

verus! {

/// May read the object.
pub const READ: u32 = 0x1;
/// May write the object.
pub const WRITE: u32 = 0x2;
/// May execute from the object.
pub const EXEC: u32 = 0x4;
/// May hand the capability on.
pub const GRANT: u32 = 0x8;
/// May map the object into an address space.
pub const MAP: u32 = 0x10;
/// Every permission.
pub const ALL: u32 = 0x1F;

} // verus!
