//! QOI ("Quite OK Image") codec: lossless encoding of raw 8-bit RGB or RGBA
//! pixels into a compact byte stream, and decoding of such streams.
//!
//! An encoded image is a 14-byte header, a body of chunks and an 8-byte end
//! marker. Every chunk describes one pixel, or a run of pixels, relative to
//! the previous pixel and to a table of 64 recently seen colors.
//!
//! The wire format is defined by the spec functions of [`header`],
//! [`chunk`] and [`stream`]. The executable encoder ([`Qoi::encode`]) and
//! decoder ([`Qoi::decode`]) are proved to compute exactly those functions,
//! and [`laws`] proves that decoding inverts encoding.
pub mod chunk;
pub mod decode;
pub mod encode;
pub mod error;
pub mod header;
pub mod laws;
pub mod pixel;
pub mod stream;

pub use error::{DecodeError, EncodeError};
pub use header::{Colors, Qoi};
pub use pixel::{Color, Pixel, Rgb, Rgba, Var};
