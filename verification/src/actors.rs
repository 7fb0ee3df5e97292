//! The user-space actors: the message format they share, the file
//! server, the user-interface server, the shell and the PS/2 drivers.
//! Each actor's decisions are here; its system calls are made by the
//! caller, which hands the answers in and carries the requests out.

pub mod sdk;
pub mod ui_server;
pub mod vfs;
pub mod shell;
pub mod ps2;
