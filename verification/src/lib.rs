//! A verified core for a small x86_64 microkernel: address arithmetic,
//! physical frame and heap allocation, page-table walks, capabilities,
//! IPC queues and rendezvous, boot-image parsers and device decoders.
#![allow(unused_imports)]
#![allow(dead_code)]

pub mod memory;
pub mod cap;
pub mod ipc;
pub mod arch;
pub mod kdisplay;
pub mod khal;
pub mod klog;
pub mod fs;
pub mod actors;
pub mod apps;
pub mod numfmt;

use vstd::prelude::*;

verus! {

} // verus!
