//! Hart, interrupt and register identifiers
use vstd::prelude::*;

verus! {

/// Hart (hardware thread) ID type
#[derive(Copy, Clone, Debug, PartialEq, Eq, Structural)]
pub struct HartId {
    pub id: usize,
}

impl HartId {
    /// Hart 0 (primary processor)
    pub fn zero() -> (r: HartId)
        ensures
            r.id == 0,
    {
        HartId { id: 0 }
    }

    /// If this is hart 0 (primary processor)
    pub fn is_zero(self) -> (r: bool)
        ensures
            r == (self.id == 0),
    {
        self.id == 0
    }

    /// Hart with the given number
    pub fn from_u16(id: u16) -> (r: HartId)
        ensures
            r.id == id,
    {
        HartId { id: id as usize }
    }
}

/// Interrupt ID type
#[derive(Copy, Clone, Debug, PartialEq, Eq, Structural)]
pub struct InterruptId {
    pub id: u32,
}

impl InterruptId {
    /// The interrupt ID as a register value
    pub fn to_usize(self) -> (r: usize)
        ensures
            r == self.id,
    {
        self.id as usize
    }
}

/// A RISC-V register (RVE not supported)
#[derive(Copy, Clone, Debug, PartialEq, Eq, Structural)]
pub enum Register {
    ReturnAddress,
    StackPointer,
    GlobalPointer,
    /// Argument 0 or return value
    Arg0,
    /// Argument 1 or secondary return value
    Arg1,
    Arg2,
    Arg3,
    Arg4,
    Arg5,
    Arg6,
    Arg7,
}

/// Index of a register among the 32 general purpose registers (`x1`, `x2`, ...)
pub open spec fn register_index(r: Register) -> nat {
    match r {
        Register::ReturnAddress => 1,
        Register::StackPointer => 2,
        Register::GlobalPointer => 3,
        Register::Arg0 => 10,
        Register::Arg1 => 11,
        Register::Arg2 => 12,
        Register::Arg3 => 13,
        Register::Arg4 => 14,
        Register::Arg5 => 15,
        Register::Arg6 => 16,
        Register::Arg7 => 17,
    }
}

/// Assembly name of a register
pub open spec fn register_name(r: Register) -> Seq<char> {
    match r {
        Register::ReturnAddress => seq!['r', 'a'],
        Register::StackPointer => seq!['s', 'p'],
        Register::GlobalPointer => seq!['g', 'p'],
        Register::Arg0 => seq!['a', '0'],
        Register::Arg1 => seq!['a', '1'],
        Register::Arg2 => seq!['a', '2'],
        Register::Arg3 => seq!['a', '3'],
        Register::Arg4 => seq!['a', '4'],
        Register::Arg5 => seq!['a', '5'],
        Register::Arg6 => seq!['a', '6'],
        Register::Arg7 => seq!['a', '7'],
    }
}

impl Register {
    /// Index of this register in a trap frame
    pub fn index(self) -> (r: usize)
        ensures
            r == register_index(self),
            r < 32,
    {
        match self {
            Register::ReturnAddress => 1,
            Register::StackPointer => 2,
            Register::GlobalPointer => 3,
            Register::Arg0 => 10,
            Register::Arg1 => 11,
            Register::Arg2 => 12,
            Register::Arg3 => 13,
            Register::Arg4 => 14,
            Register::Arg5 => 15,
            Register::Arg6 => 16,
            Register::Arg7 => 17,
        }
    }

    /// Return as string slice, as would be seen in assembly code
    pub fn as_str(&self) -> (r: &'static str)
        ensures
            r@ == register_name(*self),
    {
        match self {
            Register::ReturnAddress => {
                proof { reveal_strlit("ra"); }
                "ra"
            },
            Register::StackPointer => {
                proof { reveal_strlit("sp"); }
                "sp"
            },
            Register::GlobalPointer => {
                proof { reveal_strlit("gp"); }
                "gp"
            },
            Register::Arg0 => {
                proof { reveal_strlit("a0"); }
                "a0"
            },
            Register::Arg1 => {
                proof { reveal_strlit("a1"); }
                "a1"
            },
            Register::Arg2 => {
                proof { reveal_strlit("a2"); }
                "a2"
            },
            Register::Arg3 => {
                proof { reveal_strlit("a3"); }
                "a3"
            },
            Register::Arg4 => {
                proof { reveal_strlit("a4"); }
                "a4"
            },
            Register::Arg5 => {
                proof { reveal_strlit("a5"); }
                "a5"
            },
            Register::Arg6 => {
                proof { reveal_strlit("a6"); }
                "a6"
            },
            Register::Arg7 => {
                proof { reveal_strlit("a7"); }
                "a7"
            },
        }
    }
}

} // verus!
