//! The logic of a capability kernel for cells, and of the library and the programs
//! that run in them.
pub mod bytes;
pub mod kernel;
pub mod libc;
pub mod programs;
pub mod text;
pub mod user;
