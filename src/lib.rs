//! Core of a small preemptive RV64 / Sv39 kernel: page allocation, address
//! translation, processes, scheduling and system-call decisions.
use vstd::prelude::*;

pub mod abi;
pub mod cpu;
pub mod drivers;
pub mod errors;
pub mod line_edit;
pub mod mmu;
pub mod page_alloc;
pub mod process;
pub mod scheduler;
pub mod syscalls;
pub mod timer;
pub mod util;

verus! {

} // verus!
