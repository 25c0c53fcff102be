//! Fractional-second precision handling shared by the temporal types.

use vstd::prelude::*;

verus! {

/// `UNSPECIFIED_FSP` is the unspecified fractional seconds part.
pub const UNSPECIFIED_FSP: i8 = -1;

/// `MAX_FSP` is the maximum digit of fractional seconds part.
pub const MAX_FSP: i8 = 6;

/// `MIN_FSP` is the minimum digit of fractional seconds part.
pub const MIN_FSP: i8 = 0;

/// `DEFAULT_FSP` is the default digit of fractional seconds part.
pub const DEFAULT_FSP: i8 = 0;

/// `DEFAULT_DIV_FRAC_INCR` is the default extra precision of decimal
/// division.
pub const DEFAULT_DIV_FRAC_INCR: u8 = 4;

/// A fractional-second precision outside the accepted range.
#[derive(Clone, Copy, Debug, PartialEq, Eq, Structural)]
pub struct InvalidFsp {
    pub fsp: i8,
}

/// Validates a fractional-second precision: the unspecified marker maps to
/// the default, anything else must lie between the minimum and the maximum.
pub fn check_fsp(fsp: i8) -> (r: Result<u8, InvalidFsp>)
    ensures
        fsp == UNSPECIFIED_FSP ==> r == Ok::<u8, InvalidFsp>(DEFAULT_FSP as u8),
        MIN_FSP <= fsp <= MAX_FSP ==> r == Ok::<u8, InvalidFsp>(fsp as u8),
        !(fsp == UNSPECIFIED_FSP || MIN_FSP <= fsp <= MAX_FSP) ==> r == Err::<u8, InvalidFsp>(
            InvalidFsp { fsp },
        ),
{
    if fsp == UNSPECIFIED_FSP {
        return Ok(DEFAULT_FSP as u8);
    }
    if !(MIN_FSP <= fsp && fsp <= MAX_FSP) {
        return Err(InvalidFsp { fsp });
    }
    Ok(fsp as u8)
}

} // verus!
