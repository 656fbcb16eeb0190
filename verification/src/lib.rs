//! Verified core of a small x86_64 UEFI kernel: its physical memory map,
//! frame allocator, virtual-address layout, cooperative scheduler, timing
//! arithmetic, input decoding, and command-line parsing.

use vstd::prelude::*;

pub mod allocator;
pub mod color;
pub mod commands;
pub mod frame;
pub mod graphics;
pub mod input_smoke;
pub mod interrupts;
pub mod keyboard;
pub mod memory;
pub mod mouse;
pub mod text;
pub mod paging;
pub mod platform;
pub mod shell;
pub mod task;
pub mod timer;

verus! {

/// Size in bytes of one physical frame and of one virtual page.
pub const PAGE_SIZE: u64 = 4096;

} // verus!
