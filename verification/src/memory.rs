//! Memory management: address types, the physical frame allocator,
//! the kernel heap and the page-table layer.

pub mod address;
pub mod pmm;
pub mod heap;
pub mod vmm;
pub mod kernel_map;
pub mod pml4;
pub mod paging;
