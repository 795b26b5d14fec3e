//! What a join is asked to do, checked before any work is done.

use vstd::prelude::*;

verus! {

/// Why a join was not run.
#[derive(Clone, Copy, Debug, PartialEq, Eq, Structural)]
pub enum JoinError {
    /// The number of bands was zero.
    NoBands,
    /// The width of a band was zero.
    NoBandWidth,
    /// The records of the two collections have different numbers of
    /// coordinates.
    DimensionMismatch,
    /// The width of the character windows was zero.
    NoWindowWidth,
    /// The bands hold more seeds between them than can be counted.
    TooManySeeds,
}

impl JoinError {
    /// What went wrong, in words.
    pub fn describe(&self) -> (message: String)
        ensures
            message@ == match *self {
                JoinError::NoBands => "the number of bands must be at least 1"@,
                JoinError::NoBandWidth => "the width of a band must be at least 1"@,
                JoinError::DimensionMismatch =>
                    "the two collections must have the same number of coordinates"@,
                JoinError::NoWindowWidth => "the width of a window must be at least 1"@,
                JoinError::TooManySeeds => "the bands hold more seeds than can be counted"@,
            },
    {
        match self {
            JoinError::NoBands => "the number of bands must be at least 1".to_string(),
            JoinError::NoBandWidth => "the width of a band must be at least 1".to_string(),
            JoinError::DimensionMismatch => {
                "the two collections must have the same number of coordinates".to_string()
            },
            JoinError::NoWindowWidth => "the width of a window must be at least 1".to_string(),
            JoinError::TooManySeeds => "the bands hold more seeds than can be counted".to_string(),
        }
    }
}

/// What stands in the way of a join with this many bands of this width, if
/// anything: no band, or else no width, or else more seeds in all than a
/// machine word counts.
pub open spec fn band_fault(n_bands: usize, band_width: usize) -> Option<JoinError> {
    if n_bands == 0 {
        Some(JoinError::NoBands)
    } else if band_width == 0 {
        Some(JoinError::NoBandWidth)
    } else if n_bands * band_width > usize::MAX {
        Some(JoinError::TooManySeeds)
    } else {
        None
    }
}

/// Checks the bands of a join before any work is done.
pub fn check_bands(n_bands: usize, band_width: usize) -> (outcome: Result<(), JoinError>)
    ensures
        match outcome {
            Ok(_) => band_fault(n_bands, band_width) is None,
            Err(error) => band_fault(n_bands, band_width) == Some(error),
        },
{
    if n_bands == 0 {
        Err(JoinError::NoBands)
    } else if band_width == 0 {
        Err(JoinError::NoBandWidth)
    } else {
        match n_bands.checked_mul(band_width) {
            Some(_) => Ok(()),
            None => Err(JoinError::TooManySeeds),
        }
    }
}

/// Checks that the records of two collections have the same number of
/// coordinates.
pub fn check_dimensions(left_dim: usize, right_dim: usize) -> (outcome: Result<(), JoinError>)
    ensures
        match outcome {
            Ok(_) => left_dim == right_dim,
            Err(error) => left_dim != right_dim && error == JoinError::DimensionMismatch,
        },
{
    if left_dim != right_dim {
        Err(JoinError::DimensionMismatch)
    } else {
        Ok(())
    }
}

} // verus!
