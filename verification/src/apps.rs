//! Guest programs run in the sandbox.

pub mod hello_wasm;
