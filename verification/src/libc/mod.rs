//! A C library for programs that expect files and a heap.

pub mod io;
pub mod mem;
pub mod sys;
