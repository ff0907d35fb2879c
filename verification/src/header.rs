//! The image descriptor and the fixed preamble and end marker that frame an
//! encoded image.
use vstd::prelude::*;
use crate::error::DecodeError;

verus! {

/// Size in bytes of the header of an encoded image.
pub const QOI_HEADER_SIZE: usize = 14;

/// Size in bytes of the marker that ends an encoded image.
pub const QOI_PADDING: usize = 8;

/// Image color space variants.
#[derive(Clone, Copy, Debug, PartialEq, Eq)]
pub enum Colors {
    /// SRGB color channels.
    Srgb,
    /// SRGB color channels and linear alpha channel.
    SrgbLinA,
    /// Linear color channels.
    Rgb,
    /// Linear color and alpha channels.
    Rgba,
}

impl Colors {
    /// Whether the color space has an alpha channel.
    pub open spec fn spec_has_alpha(&self) -> bool {
        *self is Rgba || *self is SrgbLinA
    }

    /// Number of channels of the color space: 4 with alpha, 3 without.
    pub open spec fn spec_channels(&self) -> int {
        if self.spec_has_alpha() {
            4
        } else {
            3
        }
    }

    /// The color-space byte of the header: `0` for sRGB color channels with
    /// linear alpha, `1` for all channels linear.
    pub open spec fn spec_color_space(&self) -> u8 {
        if *self is Rgb || *self is Rgba {
            1
        } else {
            0
        }
    }

    /// Returns `true` if color space has alpha channel.
    /// Returns `false` otherwise.
    #[inline]
    pub fn has_alpha(&self) -> (b: bool)
        ensures
            b == self.spec_has_alpha(),
    {
        match self {
            Colors::Rgb | Colors::Srgb => false,
            Colors::Rgba | Colors::SrgbLinA => true,
        }
    }

    /// Returns the number of channels of the color space, `3` or `4`.
    #[inline]
    pub fn channels(&self) -> (n: usize)
        ensures
            n == self.spec_channels(),
    {
        match self {
            Colors::Rgb | Colors::Srgb => 3,
            Colors::Rgba | Colors::SrgbLinA => 4,
        }
    }
}

/// QOI descriptor value.
/// This value is parsed from image header during decoding,
/// or provided by caller to drive encoding.
#[derive(Clone, Copy, Debug, PartialEq, Eq)]
pub struct Qoi {
    /// Width of the image in pixels.
    pub width: u32,
    /// Height of the image in pixels.
    pub height: u32,
    /// Specifies image color space.
    pub colors: Colors,
}

impl Qoi {
    /// Number of pixels of the image.
    pub open spec fn spec_pixel_count(&self) -> int {
        self.width * self.height
    }

    /// Number of bytes of the raw pixels of the image.
    pub open spec fn spec_decoded_size(&self) -> int {
        self.width * self.height * self.colors.spec_channels()
    }

    /// Upper bound on the number of bytes of the encoded image.
    pub open spec fn spec_encoded_size_limit(&self) -> int {
        self.width * self.height * (self.colors.spec_channels() + 1) + 14 + 8
    }
}

/// The four bytes of a number, most significant first.
pub open spec fn spec_be_bytes(x: u32) -> Seq<u8> {
    seq![
        (x / 0x100_0000) as u8,
        (x / 0x1_0000 % 0x100) as u8,
        (x / 0x100 % 0x100) as u8,
        (x % 0x100) as u8,
    ]
}

/// The number whose bytes, most significant first, start at `at`.
pub open spec fn spec_from_be_bytes(bytes: Seq<u8>, at: int) -> u32 {
    (bytes[at] * 0x100_0000 + bytes[at + 1] * 0x1_0000 + bytes[at + 2] * 0x100 + bytes[at + 3]) as u32
}

/// The magic bytes that open every encoded image: `qoif`.
pub open spec fn spec_magic() -> Seq<u8> {
    seq![0x71u8, 0x6fu8, 0x69u8, 0x66u8]
}

/// The header of an image: magic, width and height in big-endian, the
/// number of channels, the color space.
pub open spec fn spec_header(qoi: Qoi) -> Seq<u8> {
    spec_magic() + spec_be_bytes(qoi.width) + spec_be_bytes(qoi.height) + seq![
        qoi.colors.spec_channels() as u8,
        qoi.colors.spec_color_space(),
    ]
}

/// The marker that ends an encoded image: seven zero bytes and a one.
pub open spec fn spec_end_marker() -> Seq<u8> {
    seq![0u8, 0u8, 0u8, 0u8, 0u8, 0u8, 0u8, 1u8]
}

/// The color space that a pair of channel count and color-space byte names.
pub open spec fn spec_colors(channels: u8, color_space: u8) -> Result<Colors, DecodeError> {
    if color_space != 0 && color_space != 1 {
        Err(DecodeError::InvalidColorSpaceValue)
    } else if channels == 3 {
        Ok(
            if color_space == 0 {
                Colors::Srgb
            } else {
                Colors::Rgb
            },
        )
    } else if channels == 4 {
        Ok(
            if color_space == 0 {
                Colors::SrgbLinA
            } else {
                Colors::Rgba
            },
        )
    } else {
        Err(DecodeError::InvalidChannelsValue)
    }
}

/// What parsing the header at the start of `bytes` gives: the descriptor, or
/// the first error in the order too short, wrong magic, wrong color space,
/// wrong channel count.
pub open spec fn spec_decode_header(bytes: Seq<u8>) -> Result<Qoi, DecodeError> {
    if bytes.len() < 14 {
        Err(DecodeError::NotEnoughData)
    } else if bytes.subrange(0, 4) != spec_magic() {
        Err(DecodeError::InvalidMagic)
    } else {
        match spec_colors(bytes[12], bytes[13]) {
            Err(e) => Err(e),
            Ok(colors) => Ok(
                Qoi {
                    width: spec_from_be_bytes(bytes, 4),
                    height: spec_from_be_bytes(bytes, 8),
                    colors,
                },
            ),
        }
    }
}

/// `width * height * per_pixel + extra`, or `None` if that does not fit in
/// `usize`.
pub(crate) fn checked_size(width: u32, height: u32, per_pixel: usize, extra: usize) -> (size: Option<usize>)
    requires
        per_pixel <= 5,
        extra <= 22,
    ensures
        size is Some <==> width * height * per_pixel + extra <= usize::MAX,
        size is Some ==> size.unwrap() == width * height * per_pixel + extra,
{
    assert(width * height <= 0xffff_ffff * 0xffff_ffff) by (nonlinear_arith)
        requires
            width <= 0xffff_ffff,
            height <= 0xffff_ffff,
    ;
    let pixels: u128 = width as u128 * height as u128;
    assert(pixels * per_pixel <= 0xffff_ffff * 0xffff_ffff * 5) by (nonlinear_arith)
        requires
            pixels <= 0xffff_ffff * 0xffff_ffff,
            per_pixel <= 5,
    ;
    let size: u128 = pixels * per_pixel as u128 + extra as u128;
    if size <= usize::MAX as u128 {
        Some(size as usize)
    } else {
        None
    }
}

} // verus!
