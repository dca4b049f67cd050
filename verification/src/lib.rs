//! A secure boot-loader core with encrypted swap support.
//!
//! Given a boot image (a tagged argument stream) and a model of main RAM,
//! the loader parses the image, allocates kernel bookkeeping tables from the
//! top of RAM, copies the kernel and the resident initial processes into
//! place, and, when a swap region is configured, transcodes swap-resident
//! processes from an encrypted FLASH image into a freshly keyed encrypted
//! swap RAM region with a per-page MAC table.

use vstd::prelude::*;

pub mod args;
pub mod bytes;
pub mod copy;
pub mod crc16;
pub mod bootconfig;
pub mod errors;
pub mod ifaces;
pub mod merge;
pub mod minielf;
pub mod phase1;
pub mod swap;
pub mod transcode;

verus! {

/// Size in bytes of one physical page.
pub const PAGE_SIZE: usize = 4096;

/// Smallest multiple of `PAGE_SIZE` that is at least `n`.
pub open spec fn spec_page_round_up(n: int) -> int {
    ((n + PAGE_SIZE - 1) / (PAGE_SIZE as int)) * (PAGE_SIZE as int)
}

/// Largest multiple of `PAGE_SIZE` that is at most `n`.
pub open spec fn spec_page_round_down(n: int) -> int {
    (n / (PAGE_SIZE as int)) * (PAGE_SIZE as int)
}

/// Rounds `n` up to the next page boundary.
pub fn page_round_up(n: usize) -> (r: usize)
    requires
        n + PAGE_SIZE - 1 <= usize::MAX,
    ensures
        r == spec_page_round_up(n as int),
        r >= n,
        r % PAGE_SIZE == 0,
        r < n + PAGE_SIZE,
{
    ((n + (PAGE_SIZE - 1)) / PAGE_SIZE) * PAGE_SIZE
}

/// Rounds `n` down to a page boundary.
pub fn page_round_down(n: usize) -> (r: usize)
    ensures
        r == spec_page_round_down(n as int),
        r <= n,
        r % PAGE_SIZE == 0,
        n - r < PAGE_SIZE,
{
    (n / PAGE_SIZE) * PAGE_SIZE
}

/// Bytes left in the page that `addr` points into.
pub fn remaining_in_page(addr: usize) -> (r: usize)
    ensures
        r == PAGE_SIZE - addr as int % (PAGE_SIZE as int),
        1 <= r <= PAGE_SIZE,
{
    PAGE_SIZE - (addr % PAGE_SIZE)
}

} // verus!
