//! Why a container could not be decoded.

use crate::bitmap::{Bitmap, Raster};
use vstd::prelude::*;

verus! {

/// The ways in which decoding a container fails.
#[derive(Debug, Clone, Copy, PartialEq, Eq)]
pub enum DecodeError {
    /// The first four bytes are not the magic constant.
    InvalidMagic,
    /// Row `row` carries the filter tag `tag`, which names no filter.
    UnknownFilter { row: u32, tag: u8 },
    /// The input ends inside the header or the filter tags.
    UnexpectedEnd,
    /// The pixel stream does not inflate to `width * height * 4` bytes.
    CorruptStream,
}

impl DecodeError {
    /// The errors of format: a bad magic and an unknown filter tag. The
    /// others tell of input cut short or damaged.
    pub open spec fn of_format(self) -> bool {
        self is InvalidMagic || self is UnknownFilter
    }

    /// Whether the input broke the format itself (bad magic, unknown filter
    /// tag) rather than being cut short or damaged.
    pub fn is_format_error(&self) -> (r: bool)
        ensures
            r == self.of_format(),
    {
        match self {
            DecodeError::InvalidMagic => true,
            DecodeError::UnknownFilter { .. } => true,
            DecodeError::UnexpectedEnd => false,
            DecodeError::CorruptStream => false,
        }
    }
}

/// The outcome of a decoding step, with the image taken by its content.
pub open spec fn outcome(r: Result<Bitmap, DecodeError>) -> Result<Raster, DecodeError> {
    match r {
        Ok(b) => Ok(b@),
        Err(e) => Err(e),
    }
}

} // verus!
