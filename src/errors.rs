//! Error type of the kernel
use vstd::prelude::*;
use crate::abi::{KrabbyAbiError, Pid};

verus! {

/// Error type for use in the kernel
#[derive(Copy, Clone, Debug, PartialEq, Eq, Structural)]
pub enum KernelError {
    /// Invalid arguments to a syscall
    InvalidArguments,
    /// A user pointer reached a page without the user bit
    ForbiddenPage,
    /// No such syscall
    InvalidSyscall(usize),
    /// No such process
    ProcessNotFound(Pid),
    /// Invalid PID
    InvalidPid(usize),
    /// Driver is uninitialized
    DriverUninitialized,
    /// Interrupt unavailable
    InterruptUnavailable,
    /// No handler for this interrupt
    InvalidIntId(usize),
    /// Invalid virtual address
    InvalidVirtualAddress(usize),
    /// Invalid physical address
    InvalidPhysicalAddress(usize),
    /// Address is misaligned
    AddressNotPageAligned(usize),
    /// Address is not mapped
    NotMapped(usize),
    /// Misaligned size
    SizeMisaligned(usize),
    /// The page table slot for this address is already in use
    AlreadyMapped(usize),
    /// No physical pages left
    OutOfMemory,
    /// No PIDs left
    OutOfPids,
    /// The kernel clock cannot represent the instant
    TimeOverflow,
    /// Converted from [KrabbyAbiError]
    KrabbyAbiError(KrabbyAbiError),
}

impl KernelError {
    /// Convert an ABI error
    pub fn from_abi(e: KrabbyAbiError) -> (r: KernelError)
        ensures
            r == KernelError::KrabbyAbiError(e),
    {
        KernelError::KrabbyAbiError(e)
    }
}

/// Result type for use in the kernel
pub type KernelResult<T> = Result<T, KernelError>;

} // verus!
