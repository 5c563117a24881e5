//! IEEE-754 numbers held by their bit patterns.
//!
//! The library carries, orders, masks and stores such numbers; it does no
//! rounding arithmetic on them.

use vstd::prelude::*;

verus! {

/// A single-precision number (binary32), held by its bit pattern.
#[derive(Clone, Copy, Debug, PartialEq, Eq, Structural)]
pub struct Single {
    pub bits: u32,
}

/// A double-precision number (binary64), held by its bit pattern.
#[derive(Clone, Copy, Debug, PartialEq, Eq, Structural)]
pub struct Double {
    pub bits: u64,
}

impl Single {
    /// The bit pattern without the sign.
    pub open spec fn magnitude(self) -> int {
        self.bits as int % 0x8000_0000
    }

    /// Not a number: the exponent is all ones and the fraction is not zero.
    pub open spec fn nan(self) -> bool {
        self.magnitude() > 0x7f80_0000
    }

    /// The four bytes of the pattern, least significant first.
    pub open spec fn le_bytes(self) -> Seq<u8> {
        seq![
            (self.bits % 0x100) as u8,
            (self.bits / 0x100 % 0x100) as u8,
            (self.bits / 0x1_0000 % 0x100) as u8,
            (self.bits / 0x100_0000) as u8,
        ]
    }

    /// The number whose bytes, least significant first, are `b0` to `b3`.
    pub open spec fn of_le_bytes(b0: u8, b1: u8, b2: u8, b3: u8) -> Single {
        Single {
            bits: (b0 as int + b1 as int * 0x100 + b2 as int * 0x1_0000 + b3 as int
                * 0x100_0000) as u32,
        }
    }

    /// Positive zero.
    pub fn zero() -> (z: Single)
        ensures
            z.bits == 0,
    {
        Single { bits: 0 }
    }

    /// Whether this is not a number.
    pub fn is_nan(self) -> (r: bool)
        ensures
            r == self.nan(),
            r == ((self.bits & 0x7f80_0000) == 0x7f80_0000 && (self.bits & 0x007f_ffff) != 0),
    {
        let bits: u32 = self.bits;
        assert((bits % 0x8000_0000 > 0x7f80_0000) == ((bits & 0x7f80_0000) == 0x7f80_0000 && (bits
            & 0x007f_ffff) != 0)) by (bit_vector);
        self.bits % 0x8000_0000 > 0x7f80_0000
    }

    /// Reads a number from its bytes, least significant first.
    pub fn from_le_bytes(b0: u8, b1: u8, b2: u8, b3: u8) -> (n: Single)
        ensures
            n == Single::of_le_bytes(b0, b1, b2, b3),
            n.bits == b0 as int + b1 as int * 0x100 + b2 as int * 0x1_0000 + b3 as int * 0x100_0000,
    {
        Single {
            bits: b0 as u32 + b1 as u32 * 0x100 + b2 as u32 * 0x1_0000 + b3 as u32 * 0x100_0000,
        }
    }

    /// Appends the bytes of the number, least significant first.
    pub fn push_le_bytes(self, out: &mut Vec<u8>)
        ensures
            final(out)@ == old(out)@ + self.le_bytes(),
            final(out)@.len() == old(out)@.len() + 4,
            final(out)@.take(old(out)@.len() as int) == old(out)@,
            ({
                let written = final(out)@.skip(old(out)@.len() as int);
                written[0] + 0x100 * written[1] + 0x1_0000 * written[2] + 0x100_0000 * written[3]
                    == self.bits
            }),
    {
        out.push((self.bits % 0x100) as u8);
        out.push((self.bits / 0x100 % 0x100) as u8);
        out.push((self.bits / 0x1_0000 % 0x100) as u8);
        out.push((self.bits / 0x100_0000) as u8);
        assert(out@ =~= old(out)@ + self.le_bytes());
        assert(out@.take(old(out)@.len() as int) =~= old(out)@);
    }
}

/// Reading back the bytes that were written gives the number that was written.
pub proof fn law_le_bytes_round_trip(n: Single)
    ensures
        n.le_bytes().len() == 4,
        Single::of_le_bytes(n.le_bytes()[0], n.le_bytes()[1], n.le_bytes()[2], n.le_bytes()[3])
            == n,
{
}

impl Double {
    /// The bit pattern without the sign.
    pub open spec fn magnitude(self) -> int {
        self.bits as int % 0x8000_0000_0000_0000
    }

    /// Whether the sign bit is set.
    pub open spec fn sign(self) -> bool {
        self.bits >= 0x8000_0000_0000_0000
    }

    /// Not a number: the exponent is all ones and the fraction is not zero.
    pub open spec fn nan(self) -> bool {
        self.magnitude() > 0x7ff0_0000_0000_0000
    }

    /// The place of the number in the numeric order. Of two numbers that are
    /// not NaN, the smaller one has the smaller rank, and equal ones (the two
    /// zeros among them) have the same rank.
    pub open spec fn rank(self) -> int {
        if self.sign() {
            -self.magnitude()
        } else {
            self.magnitude()
        }
    }

    /// The number with its sign turned.
    pub open spec fn negated(self) -> Double {
        Double {
            bits: if self.sign() {
                (self.bits - 0x8000_0000_0000_0000) as u64
            } else {
                (self.bits + 0x8000_0000_0000_0000) as u64
            },
        }
    }

    /// Positive zero.
    pub fn zero() -> (z: Double)
        ensures
            z.bits == 0,
    {
        Double { bits: 0 }
    }

    /// The place of the number in the numeric order.
    pub fn order_rank(self) -> (r: i64)
        ensures
            r == self.rank(),
            r == if self.bits < 0x8000_0000_0000_0000 {
                self.bits as int
            } else {
                0x8000_0000_0000_0000 - self.bits
            },
    {
        if self.bits >= 0x8000_0000_0000_0000 {
            -((self.bits - 0x8000_0000_0000_0000) as i64)
        } else {
            self.bits as i64
        }
    }

    /// The distance from zero in the numeric order.
    pub fn order_magnitude(self) -> (m: u64)
        ensures
            m == self.magnitude(),
            m == self.bits || m + 0x8000_0000_0000_0000 == self.bits,
            m < 0x8000_0000_0000_0000,
    {
        self.bits % 0x8000_0000_0000_0000
    }

    /// The number with its sign turned.
    pub fn negate(self) -> (n: Double)
        ensures
            n == self.negated(),
            n.bits + 0x8000_0000_0000_0000 == self.bits || n.bits == self.bits
                + 0x8000_0000_0000_0000,
    {
        if self.bits >= 0x8000_0000_0000_0000 {
            Double { bits: self.bits - 0x8000_0000_0000_0000 }
        } else {
            Double { bits: self.bits + 0x8000_0000_0000_0000 }
        }
    }
}

/// Turning the sign twice gives the number back, and turning it once mirrors
/// the number's place in the order.
pub proof fn law_negation_mirrors(n: Double)
    ensures
        n.negated().negated() == n,
        n.negated().rank() == -n.rank(),
        n.negated().magnitude() == n.magnitude(),
{
}

/// A number is below another one exactly if its rank is: among numbers that are
/// not NaN, the sign and the bit pattern decide.
pub proof fn law_rank_is_the_numeric_order(a: Double, b: Double)
    requires
        !a.nan(),
        !b.nan(),
    ensures
        a.bits < 0x8000_0000_0000_0000 && b.bits < 0x8000_0000_0000_0000 ==> (a.rank() < b.rank()
            <==> a.bits < b.bits),
        a.bits >= 0x8000_0000_0000_0000 && b.bits >= 0x8000_0000_0000_0000 ==> (a.rank() < b.rank()
            <==> a.bits > b.bits),
        a.bits > 0x8000_0000_0000_0000 && b.bits < 0x8000_0000_0000_0000 ==> a.rank() < b.rank(),
        a.bits == 0x8000_0000_0000_0000 && b.bits == 0 ==> a.rank() == b.rank(),
        a.nan() <==> (a.bits as int % 0x8000_0000_0000_0000) > 0x7ff0_0000_0000_0000,
{
}

} // verus!
