//! Alignment helpers
use vstd::prelude::*;

verus! {

/// `size` is a power of two
pub open spec fn is_power_of_two(size: usize) -> bool {
    size > 0 && size & ((size - 1) as usize) == 0
}

/// `val` rounded down to a multiple of `size`
pub open spec fn align_down_spec(val: nat, size: nat) -> nat {
    (val - val % size) as nat
}

/// Align `val` down to nearest `SIZE`
pub fn align_down<const SIZE: usize>(val: usize) -> (r: usize)
    requires
        is_power_of_two(SIZE),
    ensures
        r == align_down_spec(val as nat, SIZE as nat),
        r % SIZE == 0,
        r <= val < r + SIZE,
{
    assert(val % SIZE <= val && val % SIZE < SIZE) by (nonlinear_arith)
        requires SIZE > 0;
    let r = val - val % SIZE;
    assert(((val as int) - (val as int) % (SIZE as int)) % (SIZE as int) == 0) by (nonlinear_arith)
        requires SIZE > 0, val >= 0;
    r
}

/// Return true if `val` is aligned to `SIZE`
pub fn aligned<const SIZE: usize>(val: usize) -> (r: bool)
    requires
        is_power_of_two(SIZE),
    ensures
        r == (val % SIZE == 0),
{
    val % SIZE == 0
}

/// Align `val` up to nearest `SIZE`
pub fn align_up<const SIZE: usize>(val: usize) -> (r: usize)
    requires
        is_power_of_two(SIZE),
        align_down_spec(val as nat, SIZE as nat) + SIZE <= usize::MAX,
    ensures
        r % SIZE == 0,
        val <= r < val + SIZE,
        val % SIZE == 0 ==> r == val,
{
    let mut rv = align_down::<SIZE>(val);
    if !aligned::<SIZE>(val) {
        assert(((rv as int) + (SIZE as int)) % (SIZE as int) == 0) by (nonlinear_arith)
            requires (rv as int) % (SIZE as int) == 0, SIZE > 0;
        rv = rv + SIZE;
    }
    rv
}

/// Align `val` up to the next `SIZE`: unlike [align_up], the value always increases
pub fn align_next<const SIZE: usize>(val: usize) -> (r: usize)
    requires
        is_power_of_two(SIZE),
        align_down_spec(val as nat, SIZE as nat) + SIZE <= usize::MAX,
    ensures
        r == align_down_spec(val as nat, SIZE as nat) + SIZE,
        r % SIZE == 0,
        val < r <= val + SIZE,
{
    let d = align_down::<SIZE>(val);
    assert(((d as int) + (SIZE as int)) % (SIZE as int) == 0) by (nonlinear_arith)
        requires (d as int) % (SIZE as int) == 0, SIZE > 0;
    d + SIZE
}

/// Alignment methods on `usize`
pub trait UsizeExt: Sized {
    /// Align down to a multiple of `alignment`
    fn align_down(self, alignment: usize) -> (r: usize)
        requires
            is_power_of_two(alignment),
    ;

    /// Align up to the next multiple of `alignment`; the value always increases
    fn align_next(self, alignment: usize) -> (r: usize)
        requires
            is_power_of_two(alignment),
    ;

    /// Is the value a multiple of `alignment`?
    fn is_aligned_to(self, alignment: usize) -> (r: bool)
        requires
            is_power_of_two(alignment),
    ;
}

impl UsizeExt for usize {
    fn align_down(self, alignment: usize) -> (r: usize)
        ensures
            r == align_down_spec(self as nat, alignment as nat),
    {
        assert(self % alignment <= self) by (nonlinear_arith)
            requires alignment > 0;
        self - self % alignment
    }

    fn align_next(self, alignment: usize) -> (r: usize)
        ensures
            align_down_spec(self as nat, alignment as nat) + alignment <= usize::MAX ==> r
                == align_down_spec(self as nat, alignment as nat) + alignment,
            align_down_spec(self as nat, alignment as nat) + alignment > usize::MAX ==> r
                == align_down_spec(self as nat, alignment as nat),
    {
        let d = self.align_down(alignment);
        if d > usize::MAX - alignment {
            d
        } else {
            d + alignment
        }
    }

    fn is_aligned_to(self, alignment: usize) -> (r: bool)
        ensures
            r == (self % alignment == 0),
    {
        self % alignment == 0
    }
}

} // verus!
