//! Programs that run in cells and try the library and the kernel under them.

pub mod aggregate;
pub mod battle;
pub mod coreutils;
pub mod data;
pub mod drawing;
pub mod fpcheck;
pub mod frames;
pub mod lrsh;
pub mod netwait;
pub mod runs;
pub mod streams;
pub mod tile;
pub mod tilework;
pub mod trials;
pub mod words;
