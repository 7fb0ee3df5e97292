//! The shell: it asks the file server for `hello.txt` and reads what the
//! reply points at.

use vstd::prelude::*;
use crate::actors::sdk::{Message, pack_name, name_payload, VFS_READ_REQ, VFS_READ_REPLY};
use crate::fs::elf::le;

verus! {

/// The endpoint to the file server (slot 1).
pub const EP_VFS: i64 = 1;
/// Largest file the shell accepts.
pub const MAX_FILE_SIZE: usize = 4096;
/// Bytes the shell reads at most.
pub const READ_BUFFER: usize = 256;

/// Packs a file name into the data words of a request.
pub fn pack_filename(name: &[u8]) -> (r: [u64; 3])
    ensures
        forall|k: int| 0 <= k < 3 ==> #[trigger] r@[k] == le(name_payload(name@), 8 * k, 8),
{
    pack_name(name)
}

/// The bytes of `hello.txt`.
pub open spec fn hello_name() -> Seq<u8> {
    seq![0x68u8, 0x65u8, 0x6Cu8, 0x6Cu8, 0x6Fu8, 0x2Eu8, 0x74u8, 0x78u8, 0x74u8]
}

/// The request for `hello.txt`.
pub fn hello_request() -> (r: Message)
    ensures
        r.label == VFS_READ_REQ,
        forall|k: int| 0 <= k < 3 ==> #[trigger] r.data@[k] == le(name_payload(hello_name()), 8 * k, 8),
        r.cap_grant == 0,
        r.cap_perms == 0,
{
    let name: [u8; 9] = [0x68, 0x65, 0x6C, 0x6C, 0x6F, 0x2E, 0x74, 0x78, 0x74];
    proof { assert(name@ =~= hello_name()); }
    Message { label: VFS_READ_REQ, data: pack_filename(name.as_slice()), cap_grant: 0, cap_perms: 0, _pad: 0 }
}

/// What to read after the file server's reply: the granted capability,
/// the offset and how many bytes (the size, at most 256). `None` for
/// another label, or a size of 0 or above 4096.
pub fn read_plan(reply: &Message) -> (r: Option<(i64, i32, usize)>)
    ensures
        match r {
            Some((cap, off, len)) => {
                &&& reply.label == VFS_READ_REPLY
                &&& 0 < reply.data@[1] as usize <= MAX_FILE_SIZE
                &&& cap == reply.cap_grant as i64
                &&& off == reply.data@[0] as i32
                &&& len == (if (reply.data@[1] as usize) < READ_BUFFER { reply.data@[1] as usize } else { READ_BUFFER })
            },
            None => reply.label != VFS_READ_REPLY || reply.data@[1] as usize == 0
                || reply.data@[1] as usize > MAX_FILE_SIZE,
        },
{
    if reply.label != VFS_READ_REPLY {
        return None;
    }
    let size = reply.data[1] as usize;
    if size == 0 || size > MAX_FILE_SIZE {
        return None;
    }
    let len = if size < READ_BUFFER { size } else { READ_BUFFER };
    Some((reply.cap_grant as i64, reply.data[0] as i32, len))
}

} // verus!
