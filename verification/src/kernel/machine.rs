//! The facts of the machine and of the kernel image that the bookkeeping reads.

use vstd::prelude::*;
use crate::kernel::frames::FRAME_SIZE;

verus! {

/// Where anonymous mappings start.
pub const MMAP_BASE: u64 = 0x3_0000_0000;

/// Where a cell's queue pairs are mapped, and where anonymous mappings end.
pub const USER_QUEUE_VA: u64 = 0x4_0000_0000;

/// Where file mappings start.
pub const FILEMMAP_BASE: u64 = 0x5_0000_0000;

/// Where a cell's channels are mapped, and where file mappings end.
pub const USER_CHANNEL_VA: u64 = 0x6_0000_0000;

/// Where typed grants start.
pub const GRANT_BASE: u64 = 0x8_0000_0000;

/// What the kernel knows of the machine it runs on and of its own image.
#[derive(Copy, Clone)]
pub struct Machine {
    /// One past the last address a cell may use.
    pub user_va_max: u64,
    /// The user window of the kernel image: code and read-only data, then data.
    pub window_start: u64,
    /// Where the writable part of the user window starts.
    pub data_start: u64,
    pub window_end: u64,
    /// Memory nodes that the firmware reported.
    pub nodes_known: usize,
    /// Bytes that one queue pair takes.
    pub queue_region: u64,
    /// Channel ends that one cell can hold.
    pub channels: usize,
}

impl Machine {
    /// The address ranges are in order: anonymous mappings, queues, files,
    /// channels, grants, all below the top of the user range.
    pub open spec fn wf(&self) -> bool {
        &&& self.user_va_max >= 0x40_0000_0000
        &&& self.user_va_max <= u64::MAX - FRAME_SIZE
        &&& self.window_start <= self.data_start <= self.window_end
        &&& self.window_end <= u64::MAX - FRAME_SIZE
        &&& self.nodes_known <= 254
        &&& 0 < self.queue_region
        &&& USER_CHANNEL_VA + self.channels * self.queue_region <= GRANT_BASE
        &&& 1 <= self.channels
    }

    /// Whether the address ranges are in order.
    pub fn is_sound(&self) -> (b: bool)
        ensures
            b == self.wf(),
    {
        if self.queue_region == 0 || self.channels == 0 {
            return false;
        }
        let room: u64 = (GRANT_BASE - USER_CHANNEL_VA) / self.queue_region;
        proof {
            let (q, c) = (self.queue_region as int, self.channels as int);
            let all = (GRANT_BASE - USER_CHANNEL_VA) as int;
            vstd::arithmetic::div_mod::lemma_fundamental_div_mod(all, q);
            vstd::arithmetic::div_mod::lemma_mod_bound(all, q);
            assert((c <= all / q) == (c * q <= all)) by (nonlinear_arith)
                requires
                    q > 0,
                    all == q * (all / q) + all % q,
                    0 <= all % q < q,
            ;
        }
        self.user_va_max >= 0x40_0000_0000 && self.user_va_max <= u64::MAX - FRAME_SIZE
            && self.window_start <= self.data_start && self.data_start <= self.window_end
            && self.window_end <= u64::MAX - FRAME_SIZE && self.nodes_known <= 254 && self.channels as u64
            <= room
    }
}

} // verus!
