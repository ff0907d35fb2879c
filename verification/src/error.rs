//! The ways in which encoding and decoding fail.
use vstd::prelude::*;

verus! {

/// Errors that may occur during image encoding.
#[derive(Clone, Copy, Debug, PartialEq, Eq, Hash)]
pub enum EncodeError {
    /// Pixels buffer is too small for the image.
    NotEnoughPixelData,
    /// Output buffer is too small to fit encoded image.
    OutputIsTooSmall,
}

/// Errors that may occur during image decoding.
#[derive(Clone, Copy, Debug, PartialEq, Eq, Hash)]
pub enum DecodeError {
    /// Buffer does not contain enough encoded data.
    NotEnoughData,
    /// Encoded header contains invalid magic value.
    /// First four bytes must contain `b"qoif"`.
    /// This usually indicates that buffer does not contain QOI image.
    InvalidMagic,
    /// Encoded header contains invalid channels number.
    /// QOI supports only images with `3` or `4` channels.
    InvalidChannelsValue,
    /// Encoded header contains invalid color space value.
    /// QOI supports only `0`, sRGB color channels with linear alpha, and
    /// `1`, all channels linear.
    InvalidColorSpaceValue,
    /// Output buffer is too small to fit decoded image.
    OutputIsTooSmall,
}

impl EncodeError {
    /// The text that describes this error.
    pub open spec fn spec_message(&self) -> Seq<char> {
        match self {
            EncodeError::NotEnoughPixelData => "Pixels buffer is too small for image"@,
            EncodeError::OutputIsTooSmall => "Output buffer is too small to fit encoded image"@,
        }
    }

    /// Describes this error in a sentence.
    pub fn to_string(&self) -> (text: String)
        ensures
            text@ == self.spec_message(),
    {
        match self {
            EncodeError::NotEnoughPixelData => "Pixels buffer is too small for image".to_owned(),
            EncodeError::OutputIsTooSmall => {
                "Output buffer is too small to fit encoded image".to_owned()
            },
        }
    }
}

impl DecodeError {
    /// The text that describes this error.
    pub open spec fn spec_message(&self) -> Seq<char> {
        match self {
            DecodeError::NotEnoughData => "Buffer does not contain enough encoded data"@,
            DecodeError::InvalidMagic => "Encoded header contains invalid magic value"@,
            DecodeError::InvalidChannelsValue => "Encoded header contains invalud channels number. Must be 3 or 4"@,
            DecodeError::InvalidColorSpaceValue => "Encoded header contains invalud color space value. Must be 0 or 1"@,
            DecodeError::OutputIsTooSmall => "Output buffer is too small to fit decoded image"@,
        }
    }

    /// Describes this error in a sentence.
    pub fn to_string(&self) -> (text: String)
        ensures
            text@ == self.spec_message(),
    {
        match self {
            DecodeError::NotEnoughData => "Buffer does not contain enough encoded data".to_owned(),
            DecodeError::InvalidMagic => "Encoded header contains invalid magic value".to_owned(),
            DecodeError::InvalidChannelsValue => {
                "Encoded header contains invalud channels number. Must be 3 or 4".to_owned()
            },
            DecodeError::InvalidColorSpaceValue => {
                "Encoded header contains invalud color space value. Must be 0 or 1".to_owned()
            },
            DecodeError::OutputIsTooSmall => {
                "Output buffer is too small to fit decoded image".to_owned()
            },
        }
    }
}

} // verus!
