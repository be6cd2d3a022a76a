//! Double-precision numbers, as far as the library reads them: their order and
//! their decimal rendering.

use vstd::prelude::*;
use vstd::string::*;

verus! {

/// A double-precision number by its IEEE 754 bit pattern, together with the
/// decimal text in which it is shown.
#[derive(Debug, Clone)]
pub struct Real {
    pub bits: u64,
    pub shown: String,
}

/// The bit pattern without its sign.
pub open spec fn magnitude(bits: u64) -> int {
    bits as int % 0x8000_0000_0000_0000
}

/// Whether the bit pattern stands for no number.
pub open spec fn not_a_number(bits: u64) -> bool {
    magnitude(bits) > 0x7ff0_0000_0000_0000
}

/// A whole number that grows with the number the bit pattern stands for.
pub open spec fn rank(bits: u64) -> int {
    if bits >= 0x8000_0000_0000_0000 {
        -magnitude(bits)
    } else {
        magnitude(bits)
    }
}

/// The numbers that bound a range.
#[derive(Debug, Clone, Copy)]
pub enum Mark {
    MinusTwo,
    Zero,
    One,
    Two,
}

impl Mark {
    /// The bit pattern of the number.
    pub open spec fn bits(self) -> u64 {
        match self {
            Mark::MinusTwo => 0xc000_0000_0000_0000,
            Mark::Zero => 0,
            Mark::One => 0x3ff0_0000_0000_0000,
            Mark::Two => 0x4000_0000_0000_0000,
        }
    }

    pub open spec fn shown(self) -> Seq<char> {
        match self {
            Mark::MinusTwo => "-2"@,
            Mark::Zero => "0"@,
            Mark::One => "1"@,
            Mark::Two => "2"@,
        }
    }

    pub fn to_bits(self) -> (r: u64)
        ensures
            r == self.bits(),
    {
        match self {
            Mark::MinusTwo => 0xc000_0000_0000_0000,
            Mark::Zero => 0,
            Mark::One => 0x3ff0_0000_0000_0000,
            Mark::Two => 0x4000_0000_0000_0000,
        }
    }

    pub fn text(self) -> (r: &'static str)
        ensures
            r@ == self.shown(),
    {
        match self {
            Mark::MinusTwo => "-2",
            Mark::Zero => "0",
            Mark::One => "1",
            Mark::Two => "2",
        }
    }
}

pub fn rank_of(bits: u64) -> (r: i64)
    ensures
        r == rank(bits),
{
    let m: u64 = bits % 0x8000_0000_0000_0000;
    if bits >= 0x8000_0000_0000_0000 {
        -(m as i64)
    } else {
        m as i64
    }
}

impl Real {
    /// Neither a number outside the range nor no number at all.
    pub open spec fn within(self, lo: Mark, hi: Mark) -> bool {
        !not_a_number(self.bits) && rank(lo.bits()) <= rank(self.bits) <= rank(hi.bits())
    }

    pub fn is_within(&self, lo: Mark, hi: Mark) -> (r: bool)
        ensures
            r == self.within(lo, hi),
    {
        let k: i64 = rank_of(self.bits);
        self.bits % 0x8000_0000_0000_0000 <= 0x7ff0_0000_0000_0000 && rank_of(lo.to_bits()) <= k && k
            <= rank_of(hi.to_bits())
    }

    pub fn copy(&self) -> (r: Real)
        ensures
            r == *self,
    {
        Real { bits: self.bits, shown: self.shown.clone() }
    }
}

} // verus!
