use vstd::prelude::*;

use crate::decimal::{literal_units, parse_decimal, Decimal, UNITS_PER_ONE};

verus! {

/// A session setting that the engine cannot work with.
#[derive(Clone, Copy, Debug, PartialEq, Eq)]
pub enum ConfigError {
    /// The tempo is not a positive number of beats per minute.
    InvalidTempo,
    /// The quantization is not a decimal fraction of a beat in `(0, 1]`.
    InvalidQuantization,
}

/// Accepts a tempo of at least one beat per minute.
pub fn check_tempo(bpm: i64) -> (r: Result<i64, ConfigError>)
    ensures
        bpm > 0 ==> r == Ok::<i64, ConfigError>(bpm),
        bpm <= 0 ==> r == Err::<i64, ConfigError>(ConfigError::InvalidTempo),
{
    if bpm > 0 {
        Ok(bpm)
    } else {
        Err(ConfigError::InvalidTempo)
    }
}

/// Reads a quantization step such as `0.125`: a decimal literal worth more
/// than zero and at most one beat.
pub fn parse_quantization(text: &str) -> (r: Result<Decimal, ConfigError>)
    ensures
        r matches Ok(d) ==> literal_units(text@) == Some(d.units as int) && 0 < d.units
            <= UNITS_PER_ONE,
        r is Err ==> r == Err::<Decimal, ConfigError>(ConfigError::InvalidQuantization) && !(
        literal_units(text@) matches Some(v) && 0 < v <= UNITS_PER_ONE),
{
    match parse_decimal(text) {
        Some(d) => if 0 < d.units && d.units <= UNITS_PER_ONE {
            Ok(d)
        } else {
            Err(ConfigError::InvalidQuantization)
        },
        None => Err(ConfigError::InvalidQuantization),
    }
}

} // verus!
