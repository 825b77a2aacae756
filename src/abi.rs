//! Types shared between the kernel and user space: PIDs, syscall numbers,
//! process exit results.
use vstd::prelude::*;

verus! {

/// Error type of the user-space ABI
#[derive(Copy, Clone, Debug, PartialEq, Eq, Structural)]
pub enum KrabbyAbiError {
    InvalidPid(usize),
    InvalidFileDescriptor(usize),
}

/// Exit error code from a process
#[derive(Copy, Clone, Debug, PartialEq, Eq, Structural)]
pub enum ProcessError {
    /// Generic failure
    Failure,
}

/// The exit value of a process
pub type ProcessResult = Result<(), ProcessError>;

/// The register value that encodes a process error
pub open spec fn process_error_code(e: ProcessError) -> usize {
    match e {
        ProcessError::Failure => 1,
    }
}

impl ProcessError {
    /// The process error with code `value`, if any
    pub fn n(value: usize) -> (r: Option<ProcessError>)
        ensures
            r == (if value == 1 { Some(ProcessError::Failure) } else { None::<ProcessError> }),
    {
        if value == 1 {
            Some(ProcessError::Failure)
        } else {
            None
        }
    }

    /// Numeric code of this error
    pub fn code(self) -> (r: usize)
        ensures
            r == process_error_code(self),
    {
        match self {
            ProcessError::Failure => 1,
        }
    }
}

/// File descriptor type
#[derive(Copy, Clone, Debug, PartialEq, Eq, Structural)]
pub struct FileDescriptor {
    pub fd: u16,
}

impl FileDescriptor {
    /// Build a file descriptor from a register value
    pub fn try_from(fd: usize) -> (r: Result<FileDescriptor, KrabbyAbiError>)
        ensures
            fd <= u16::MAX ==> r == Ok::<FileDescriptor, KrabbyAbiError>(FileDescriptor { fd: fd as u16 }),
            fd > u16::MAX ==> r == Err::<FileDescriptor, KrabbyAbiError>(KrabbyAbiError::InvalidFileDescriptor(fd)),
    {
        if fd <= u16::MAX as usize {
            Ok(FileDescriptor { fd: fd as u16 })
        } else {
            Err(KrabbyAbiError::InvalidFileDescriptor(fd))
        }
    }

    /// The register value of this descriptor
    pub fn to_usize(self) -> (r: usize)
        ensures
            r == self.fd,
    {
        self.fd as usize
    }
}

/// Process ID: a non-zero 16-bit number
#[derive(Copy, Clone, Debug, PartialEq, Eq, Structural)]
pub struct Pid {
    id: u16,
}

impl View for Pid {
    type V = u16;

    closed spec fn view(&self) -> u16 {
        self.id
    }
}

impl Pid {
    #[verifier::type_invariant]
    spec fn inv(self) -> bool {
        self.id != 0
    }

    /// A PID is determined by its number
    pub broadcast proof fn lemma_view_injective(a: Pid, b: Pid)
        ensures
            (#[trigger] a@ == #[trigger] b@) <==> a == b,
    {
    }

    /// Generate a new PID from `generator`: PIDs come in increasing order and
    /// are never handed out twice; `None` once all are used
    pub fn generate(generator: &mut PidGenerator) -> (r: Option<Pid>)
        requires
            old(generator).wf(),
        ensures
            final(generator).wf(),
            old(generator)@ <= u16::MAX ==> r.is_some() && r.unwrap()@ == old(generator)@ && final(generator)@
                == old(generator)@ + 1,
            old(generator)@ > u16::MAX ==> r.is_none() && final(generator)@ == old(generator)@,
    {
        generator.generate()
    }

    /// Return None if zero, else return a Pid
    pub fn maybe_from_u16(val: u16) -> (r: Option<Pid>)
        ensures
            val == 0 ==> r.is_none(),
            val != 0 ==> r.is_some() && r.unwrap()@ == val,
    {
        if val == 0 {
            None
        } else {
            Some(Pid { id: val })
        }
    }

    /// Return `Ok(None)` if zero, an error if too large, else a Pid
    pub fn maybe_from_usize(val: usize) -> (r: Result<Option<Pid>, KrabbyAbiError>)
        ensures
            val > u16::MAX ==> r == Err::<Option<Pid>, KrabbyAbiError>(KrabbyAbiError::InvalidPid(val)),
            val == 0 ==> r == Ok::<Option<Pid>, KrabbyAbiError>(None),
            0 < val <= u16::MAX ==> r.is_ok() && r.unwrap().is_some() && r.unwrap().unwrap()@ == val,
    {
        if val > u16::MAX as usize {
            Err(KrabbyAbiError::InvalidPid(val))
        } else {
            Ok(Self::maybe_from_u16(val as u16))
        }
    }

    /// Convert a register value into a PID; zero and values above `u16::MAX` are invalid
    pub fn try_from(val: usize) -> (r: Result<Pid, KrabbyAbiError>)
        ensures
            (0 < val <= u16::MAX) ==> r.is_ok() && r.unwrap()@ == val,
            !(0 < val <= u16::MAX) ==> r == Err::<Pid, KrabbyAbiError>(KrabbyAbiError::InvalidPid(val)),
    {
        match Self::maybe_from_usize(val) {
            Ok(Some(p)) => Ok(p),
            _ => Err(KrabbyAbiError::InvalidPid(val)),
        }
    }

    /// The PID number
    pub fn as_u16(self) -> (r: u16)
        ensures
            r == self@,
            r != 0,
    {
        proof {
            use_type_invariant(self);
        }
        self.id
    }

    /// The PID as a register value
    pub fn as_usize(self) -> (r: usize)
        ensures
            r == self@,
            r != 0,
    {
        self.as_u16() as usize
    }
}

/// Hands out PIDs in increasing order, starting with 1; a PID is never handed out twice
pub struct PidGenerator {
    next: u32,
}

impl View for PidGenerator {
    type V = nat;

    /// The number that the next PID will carry
    closed spec fn view(&self) -> nat {
        self.next as nat
    }
}

impl PidGenerator {
    /// `true` when the generator is consistent
    pub closed spec fn wf(&self) -> bool {
        1 <= self.next <= u16::MAX + 1
    }

    /// A generator whose first PID is 1
    pub fn new() -> (r: PidGenerator)
        ensures
            r.wf(),
            r@ == 1,
    {
        PidGenerator { next: 1 }
    }

    /// Generate a new PID; `None` once all PIDs have been handed out
    pub fn generate(&mut self) -> (r: Option<Pid>)
        requires
            old(self).wf(),
        ensures
            final(self).wf(),
            old(self)@ <= u16::MAX ==> r.is_some() && r.unwrap()@ == old(self)@ && final(self)@
                == old(self)@ + 1,
            old(self)@ > u16::MAX ==> r.is_none() && final(self)@ == old(self)@,
    {
        if self.next > u16::MAX as u32 {
            return None;
        }
        let id = self.next as u16;
        self.next = self.next + 1;
        Some(Pid { id })
    }
}

/// Syscall number
#[derive(Copy, Clone, Debug, PartialEq, Eq, Structural)]
pub enum Syscall {
    PutChar,
    GetChar,
    PutString,
    Pinfo,
    Fork,
    Exit,
    WaitPid,
    Sleep,
    RequestMemory,
    /// Power off the device
    PowerOff,
    /// Development aid
    Test,
    /// Open file
    Open,
}

/// The number in `a7` that selects a syscall
pub open spec fn syscall_number(s: Syscall) -> usize {
    match s {
        Syscall::PutChar => 1,
        Syscall::GetChar => 2,
        Syscall::PutString => 3,
        Syscall::Pinfo => 4,
        Syscall::Fork => 5,
        Syscall::Exit => 6,
        Syscall::WaitPid => 7,
        Syscall::Sleep => 8,
        Syscall::RequestMemory => 9,
        Syscall::PowerOff => 10,
        Syscall::Test => 11,
        Syscall::Open => 12,
    }
}

impl Syscall {
    /// The syscall with number `value`, if any
    pub open spec fn spec_n(value: usize) -> Option<Syscall> {
        if value == 1 {
            Some(Syscall::PutChar)
        } else if value == 2 {
            Some(Syscall::GetChar)
        } else if value == 3 {
            Some(Syscall::PutString)
        } else if value == 4 {
            Some(Syscall::Pinfo)
        } else if value == 5 {
            Some(Syscall::Fork)
        } else if value == 6 {
            Some(Syscall::Exit)
        } else if value == 7 {
            Some(Syscall::WaitPid)
        } else if value == 8 {
            Some(Syscall::Sleep)
        } else if value == 9 {
            Some(Syscall::RequestMemory)
        } else if value == 10 {
            Some(Syscall::PowerOff)
        } else if value == 11 {
            Some(Syscall::Test)
        } else if value == 12 {
            Some(Syscall::Open)
        } else {
            None
        }
    }

    /// The syscall with number `value`, if any
    pub fn n(value: usize) -> (r: Option<Syscall>)
        ensures
            r == Syscall::spec_n(value),
            r.is_some() <==> 1 <= value <= 12,
            r.is_some() ==> syscall_number(r.unwrap()) == value,
    {
        match value {
            1 => Some(Syscall::PutChar),
            2 => Some(Syscall::GetChar),
            3 => Some(Syscall::PutString),
            4 => Some(Syscall::Pinfo),
            5 => Some(Syscall::Fork),
            6 => Some(Syscall::Exit),
            7 => Some(Syscall::WaitPid),
            8 => Some(Syscall::Sleep),
            9 => Some(Syscall::RequestMemory),
            10 => Some(Syscall::PowerOff),
            11 => Some(Syscall::Test),
            12 => Some(Syscall::Open),
            _ => None,
        }
    }

    /// The number of this syscall
    pub fn number(self) -> (r: usize)
        ensures
            r == syscall_number(self),
    {
        match self {
            Syscall::PutChar => 1,
            Syscall::GetChar => 2,
            Syscall::PutString => 3,
            Syscall::Pinfo => 4,
            Syscall::Fork => 5,
            Syscall::Exit => 6,
            Syscall::WaitPid => 7,
            Syscall::Sleep => 8,
            Syscall::RequestMemory => 9,
            Syscall::PowerOff => 10,
            Syscall::Test => 11,
            Syscall::Open => 12,
        }
    }
}

} // verus!
