//! The sandbox test guest: a pure function the host calls, and the
//! greeting it prints through the host.

use vstd::prelude::*;

verus! {

/// The sum of `a` and `b`.
pub fn add(a: i32, b: i32) -> (r: i32)
    requires
        i32::MIN <= a + b <= i32::MAX,
    ensures
        r == a + b,
{
    a + b
}

/// The greeting `run_guest` hands to the host's print function.
pub fn guest_greeting() -> (r: &'static str)
    ensures
        r@ == "Hello from the Wasm Sandbox!\n"@,
{
    "Hello from the Wasm Sandbox!\n"
}

} // verus!
