//! The ways in which a conversion is refused.

use vstd::prelude::*;

verus! {

/// Why a buffer cannot be seen as the target representation.
#[derive(Clone, Copy, Debug, PartialEq, Eq, Structural)]
pub enum ConvertError {
    /// A stride of the source is negative and the target has unsigned strides.
    NegativeStride,
    /// A stride of the source is larger than the target's signed strides can hold.
    StrideOverflow,
    /// The channel axis does not have the extent that the pixel format fixes.
    ChannelMismatch,
    /// Shape and strides reach outside the buffer, the buffer has the wrong
    /// length, or an extent does not fit the target's dimension type.
    ShapeMismatch,
}

impl ConvertError {
    /// The text that names the failed precondition.
    pub open spec fn spec_message(self) -> Seq<char> {
        match self {
            ConvertError::NegativeStride => "negative stride"@,
            ConvertError::StrideOverflow => "stride overflow"@,
            ConvertError::ChannelMismatch => "channel count mismatch"@,
            ConvertError::ShapeMismatch => "shape mismatch"@,
        }
    }

    /// The text that names the failed precondition.
    pub fn message(&self) -> (text: &'static str)
        ensures
            text@ == self.spec_message(),
    {
        match self {
            ConvertError::NegativeStride => "negative stride",
            ConvertError::StrideOverflow => "stride overflow",
            ConvertError::ChannelMismatch => "channel count mismatch",
            ConvertError::ShapeMismatch => "shape mismatch",
        }
    }
}

} // verus!
