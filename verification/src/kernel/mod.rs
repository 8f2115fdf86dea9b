//! The kernel: what a cell may do, and what is done for it.

pub mod admission;
pub mod aspace;
pub mod calls;
pub mod capability;
pub mod cells;
pub mod drain;
pub mod errands;
pub mod floor;
pub mod frames;
pub mod grant_effects;
pub mod grants;
pub mod graph;
pub mod install;
pub mod machine;
pub mod memory;
pub mod pages;
pub mod placement;
pub mod probes;
pub mod reports;
pub mod reserve;
pub mod rounds;
pub mod shell;
pub mod smp;
pub mod spinlock;
pub mod svc;
pub mod telemetry;
pub mod time;
pub mod trace;
pub mod trap;
pub mod uaccess;
pub mod vaspace;
pub mod work;
