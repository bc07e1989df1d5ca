//! How far a reader of packed or written values gets.

use vstd::prelude::*;

verus! {

/// Where a reader stands after a value.
#[derive(Debug, PartialEq, Eq)]
pub enum Walk<P> {
    /// Behind the value.
    At(P),
    /// The value is refused.
    Failed,
    /// The arithmetic of the reader overflows.
    Over,
}

impl Walk<usize> {
    /// The same place as a number.
    pub open spec fn place(self) -> Walk<int> {
        match self {
            Walk::At(p) => Walk::At(p as int),
            Walk::Failed => Walk::Failed,
            Walk::Over => Walk::Over,
        }
    }
}

/// Whether the mantissa of a decimal fits: it has 56 bits with the sign.
pub open spec fn mantissa_fits(negative: bool, size: int) -> bool {
    if negative {
        size <= 0x80_0000_0000_0000
    } else {
        size < 0x80_0000_0000_0000
    }
}

/// Whether a decimal fits once digits are cut off its mantissa; its exponent is at most 127.
pub open spec fn decimal_fits(negative: bool, size: nat, exponent: int) -> bool
    decreases size,
{
    if mantissa_fits(negative, size as int) {
        true
    } else if exponent >= 127 {
        false
    } else {
        decimal_fits(negative, size / 10, exponent + 1)
    }
}

/// Whether a decimal fits once digits are cut off its mantissa.
pub fn is_decimal_fitting(negative: bool, size: u64, exponent: i64) -> (r: bool)
    requires
        -128 <= exponent <= 127,
    ensures
        r == decimal_fits(negative, size as nat, exponent as int),
{
    let mut left: u64 = size;
    let mut e: i64 = exponent;
    loop
        invariant
            e <= 127,
            decimal_fits(negative, left as nat, e as int) == decimal_fits(
                negative,
                size as nat,
                exponent as int,
            ),
        decreases left,
    {
        let fits = if negative {
            left <= 0x80_0000_0000_0000
        } else {
            left < 0x80_0000_0000_0000
        };
        if fits {
            return true;
        }
        if e >= 127 {
            return false;
        }
        left = left / 10;
        e = e + 1;
    }
}

} // verus!
