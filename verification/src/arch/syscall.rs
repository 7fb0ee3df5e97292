//! The capability system-call interface for user actors: checking the
//! user pointers a call hands the kernel.

use vstd::prelude::*;

verus! {

/// End of the user half of the address space.
pub const USER_SPACE_END: u64 = 0x0000_8000_0000_0000;
/// Longest message `SYS_LOG` accepts.
pub const MAX_LOG_LEN: usize = 1024;
/// Bytes of an IPC message in user memory.
pub const MESSAGE_BYTES: usize = 48;

/// Whether the kernel may touch `[ptr, ptr + len)` for a user process:
/// `ptr` is not null and the range ends inside the user half (an empty
/// range at a non-null pointer is fine).
pub open spec fn user_range_ok(ptr: u64, len: usize) -> bool {
    ptr != 0 && (len == 0 || ptr + len <= USER_SPACE_END)
}

/// Checks a user pointer range (see `user_range_ok`).
pub fn validate_user_ptr(ptr: u64, len: usize) -> (r: bool)
    ensures
        r == user_range_ok(ptr, len),
{
    if ptr == 0 {
        return false;
    }
    if len == 0 {
        return true;
    }
    match ptr.checked_add(len as u64) {
        Some(end) => end <= USER_SPACE_END,
        None => false,
    }
}

/// Whether `SYS_LOG` accepts a message of `len` bytes at `ptr`: a valid
/// range of at most 1024 bytes.
pub fn log_args_ok(ptr: u64, len: usize) -> (r: bool)
    ensures
        r == (user_range_ok(ptr, len) && len <= MAX_LOG_LEN),
{
    validate_user_ptr(ptr, len) && len <= MAX_LOG_LEN
}

/// Whether a message buffer for `SYS_CAP_SEND` or `SYS_CAP_RECV` at
/// `ptr` is valid.
pub fn message_ptr_ok(ptr: u64) -> (r: bool)
    ensures
        r == user_range_ok(ptr, MESSAGE_BYTES),
{
    validate_user_ptr(ptr, MESSAGE_BYTES)
}

} // verus!
