//! The library that a cell is linked with.

pub mod cap;
pub mod compute;
pub mod display;
pub mod io;
pub mod ipc;
pub mod mem;
pub mod net;
pub mod proc;
pub mod rng;
