use vstd::prelude::*;

pub mod error;
pub mod key;
pub mod ordered_map;
pub mod overlay_map;
pub mod ordered_set;
pub mod map_with_context;
pub mod types;
pub mod pool;
pub mod tick;
pub mod state;
pub mod dex;
pub mod account_view;
pub mod actions;
pub mod rational_fraction;

use crate::error::ErrorKind;
use crate::types::BasisPoints;

verus! {

/// Number of basis points in a whole.
pub const BASIS_POINT_DIVISOR: BasisPoints = 10_000;

/// Smallest protocol fee fraction, in basis points.
pub const MIN_PROTOCOL_FEE_FRACTION: BasisPoints = 1;

/// Largest protocol fee fraction, in basis points: half of the fee.
pub const MAX_PROTOCOL_FEE_FRACTION: BasisPoints = BASIS_POINT_DIVISOR / 2;

/// Whether `fraction` is an allowed protocol fee fraction.
pub open spec fn valid_protocol_fee_fraction(fraction: BasisPoints) -> bool {
    MIN_PROTOCOL_FEE_FRACTION <= fraction <= MAX_PROTOCOL_FEE_FRACTION
}

/// Returns `protocol_fee_fraction` when it lies between `MIN_PROTOCOL_FEE_FRACTION` and
/// `MAX_PROTOCOL_FEE_FRACTION`, both included; fails with `IllegalFee` otherwise.
pub fn validate_protocol_fee_fraction(protocol_fee_fraction: BasisPoints) -> (r: core::result::Result<
    BasisPoints,
    ErrorKind,
>)
    ensures
        valid_protocol_fee_fraction(protocol_fee_fraction) ==> r == Ok::<BasisPoints, ErrorKind>(
            protocol_fee_fraction,
        ),
        !valid_protocol_fee_fraction(protocol_fee_fraction) ==> r == Err::<BasisPoints, ErrorKind>(
            ErrorKind::IllegalFee,
        ),
{
    if MIN_PROTOCOL_FEE_FRACTION <= protocol_fee_fraction
        && protocol_fee_fraction <= MAX_PROTOCOL_FEE_FRACTION {
        Ok(protocol_fee_fraction)
    } else {
        Err(ErrorKind::IllegalFee)
    }
}

} // verus!
