use vstd::prelude::*;
use vstd::arithmetic::power2::{
    lemma2_to64, lemma2_to64_rest, lemma_pow2_adds, lemma_pow2_strictly_increases,
    lemma_pow2_unfold, pow2,
};

use crate::error::{Error, ErrorKind, Result};
use crate::types::Amount;

verus! {

/// A rational number `nominator / denominator`.
#[derive(Clone, Copy, Debug)]
pub struct Fraction {
    pub nominator: Amount,
    pub denominator: Amount,
}

/// `2^128`, the number of values of an amount.
pub open spec fn amount_range() -> nat {
    pow2(128)
}

/// The fraction that a floating-point number stands for, given the number's parts: whether it
/// is zero, and otherwise its mantissa, its binary exponent and its sign, the number being
/// `sign * mantissa * 2^exponent`.
pub open spec fn fraction_of_parts(is_zero: bool, mantissa: u64, exponent: i16, sign: i8) -> Result<
    Fraction,
> {
    if is_zero {
        Ok(Fraction { nominator: 0, denominator: 0 })
    } else if sign != 1 || !(-128 < exponent < 128) {
        Err(Error { kind: ErrorKind::InternalLogicError })
    } else if exponent >= 0 {
        Ok(
            Fraction {
                nominator: ((mantissa * pow2(exponent as nat)) % (amount_range() as int)) as Amount,
                denominator: 1,
            },
        )
    } else {
        Ok(Fraction { nominator: mantissa as Amount, denominator: pow2((-exponent) as nat) as Amount })
    }
}

/// `2^k` as an amount.
fn pow2_amount(k: u32) -> (r: Amount)
    requires
        k < 128,
    ensures
        r == pow2(k as nat),
{
    proof {
        lemma2_to64();
        lemma2_to64_rest();
        lemma_pow2_adds(64, 63);
    }
    let mut r: Amount = 1;
    let mut i: u32 = 0;
    while i < k
        invariant
            i <= k < 128,
            r == pow2(i as nat),
            pow2(127) == 0x8000_0000_0000_0000_0000_0000_0000_0000,
        decreases k - i,
    {
        proof {
            lemma_pow2_unfold((i + 1) as nat);
            lemma_pow2_unfold(127);
            if i < 126 {
                lemma_pow2_strictly_increases(i as nat, 126);
            }
        }
        r = r * 2;
        i += 1;
    }
    r
}

impl Fraction {
    /// Zero, as `0 / 0`.
    fn zero() -> (r: Self)
        ensures
            r.nominator == 0,
            r.denominator == 0,
    {
        Fraction { nominator: 0, denominator: 0 }
    }

    /// The fraction that a floating-point number stands for, given the number's parts (see
    /// `fraction_of_parts`): zero as `0 / 0`; a positive number with an exponent between -128
    /// and 128, both excluded, as its mantissa shifted left by the exponent over one (the bits
    /// shifted out of an amount are lost), or as its mantissa over `2^-exponent`.
    ///
    /// Fails with `InternalLogicError` for a number that is not zero and is negative or has an
    /// exponent outside that range.
    pub fn from_float_parts(is_zero: bool, mantissa: u64, exponent: i16, sign: i8) -> (r: Result<Self>)
        ensures
            r == fraction_of_parts(is_zero, mantissa, exponent, sign),
    {
        if is_zero {
            return Ok(Self::zero());
        }
        if sign != 1 {
            return Err(Error::new(ErrorKind::InternalLogicError));
        }
        if !(-128 < exponent && exponent < 128) {
            return Err(Error::new(ErrorKind::InternalLogicError));
        }
        if exponent >= 0 {
            let scale = pow2_amount(exponent as u32);
            let nominator = (mantissa as Amount).wrapping_mul(scale);
            proof {
                lemma2_to64();
                lemma_pow2_adds(64, 64);
            }
            Ok(Fraction { nominator, denominator: 1 })
        } else {
            let denominator = pow2_amount((-exponent) as u32);
            Ok(Fraction { nominator: mantissa as Amount, denominator })
        }
    }
}

} // verus!
