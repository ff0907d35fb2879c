//! The decoder: chunks to raw pixels, and the parsing of the header.
use vstd::prelude::*;
use vstd::slice::slice_subrange;
use crate::error::DecodeError;
use crate::header::{
    Colors,
    QOI_HEADER_SIZE,
    Qoi,
    checked_size,
    spec_decode_header,
    spec_from_be_bytes,
    spec_magic,
};
use crate::pixel::{
    Color,
    Var,
    hash_channels,
    spec_add_var,
    spec_hash,
    spec_raw,
    spec_unsigned,
};
use crate::stream::{
    DecoderState,
    lemma_decoded_size,
    lemma_decoder_needs_bytes,
    lemma_decoder_stays_short,
    lemma_decoder_step_in_run,
    spec_decode_body,
    spec_decode_into,
    spec_decoded_pixels,
    spec_decoder_start,
    spec_decoder_state,
    spec_decoder_step,
    spec_diff_var,
    spec_first_index,
    spec_luma_var,
};

verus! {

/// The value of a pixel held as an array of its channels. An array of three
/// channels is opaque.
pub open spec fn spec_color<const N: usize>(px: [u8; N]) -> Color {
    Color {
        r: px[0],
        g: px[1],
        b: px[2],
        a: if N == 4 {
            px[3]
        } else {
            255
        },
    }
}

/// The values that a recent-colors table of channel arrays holds.
pub open spec fn spec_array_table<const N: usize>(index: [[u8; N]; 64]) -> Seq<Color> {
    Seq::new(64, |i: int| spec_color(index[i]))
}

/// The bytes of a sequence of channel arrays, one array after the other.
pub open spec fn spec_flatten<const N: usize>(pixels: Seq<[u8; N]>) -> Seq<u8> {
    Seq::new(pixels.len() * (N as nat), |k: int| pixels[k / (N as int)][k % (N as int)])
}

/// Views a buffer of bytes as a buffer of pixels of `N` channels each.
///
/// Calls `bytemuck::cast_slice_mut`, which reinterprets the same memory: the
/// `i`-th array of the result is bytes `i * N .. (i + 1) * N` of the buffer,
/// before the call and, for whatever is stored through the result, after it.
/// The call panics unless the length of the buffer is a multiple of `N`.
#[verifier::external_body]
fn cast_pixels_mut<const N: usize>(bytes: &mut [u8]) -> (pixels: &mut [[u8; N]])
    requires
        N > 0,
        old(bytes)@.len() % (N as nat) == 0,
    ensures
        pixels@.len() * N == old(bytes)@.len(),
        spec_flatten(pixels@) == old(bytes)@,
        spec_flatten(final(pixels)@) == final(bytes)@,
{
    bytemuck::cast_slice_mut::<u8, [u8; N]>(bytes)
}

/// Recent-colors slot of a pixel held as an array of its channels.
fn hash_array<const N: usize>(px: &[u8; N]) -> (h: u8)
    requires
        N == 3 || N == 4,
    ensures
        h == spec_hash(spec_color(*px)),
        h < 64,
{
    if N == 4 {
        hash_channels(px[0], px[1], px[2], px[3])
    } else {
        hash_channels(px[0], px[1], px[2], 255)
    }
}

/// Adds to the color channels of a pixel, wrapping around.
fn add_rgb<const N: usize>(px: &mut [u8; N], v: Var)
    requires
        N == 3 || N == 4,
    ensures
        spec_color(*final(px)) == spec_add_var(spec_color(*old(px)), v),
{
    px[0] = px[0].wrapping_add(v.r);
    px[1] = px[1].wrapping_add(v.g);
    px[2] = px[2].wrapping_add(v.b);
}

/// The byte that stands for a small signed number.
proof fn lemma_unsigned(d: int)
    requires
        -256 <= d < 256,
    ensures
        spec_unsigned(d) == if d < 0 {
            d + 256
        } else {
            d
        },
{
}

/// The difference that a DIFF chunk holds.
fn diff_var(b1: u8) -> (v: Var)
    ensures
        v == spec_diff_var(b1),
{
    let r = (b1 >> 4) & 0x03;
    let g = (b1 >> 2) & 0x03;
    let b = b1 & 0x03;
    proof {
        assert(r == b1 / 16 % 4 && g == b1 / 4 % 4 && b == b1 % 4) by (bit_vector)
            requires
                r == (b1 >> 4) & 0x03,
                g == (b1 >> 2) & 0x03,
                b == b1 & 0x03,
        ;
        lemma_unsigned(r - 2);
        lemma_unsigned(g - 2);
        lemma_unsigned(b - 2);
    }
    Var { r: r.wrapping_sub(2), g: g.wrapping_sub(2), b: b.wrapping_sub(2) }
}

/// The difference that the two bytes of a LUMA chunk hold.
fn luma_var(b1: u8, b2: u8) -> (v: Var)
    ensures
        v == spec_luma_var(b1, b2),
{
    let g6 = b1 & 0x3f;
    let r4 = (b2 >> 4) & 0x0f;
    let b4 = b2 & 0x0f;
    proof {
        assert(g6 == b1 % 64 && r4 == b2 / 16 && b4 == b2 % 16) by (bit_vector)
            requires
                g6 == b1 & 0x3f,
                r4 == (b2 >> 4) & 0x0f,
                b4 == b2 & 0x0f,
        ;
        lemma_unsigned(g6 - 32);
        lemma_unsigned(r4 - 8 + (g6 - 32));
        lemma_unsigned(b4 - 8 + (g6 - 32));
    }
    let g = g6.wrapping_sub(32);
    let r = r4.wrapping_sub(8).wrapping_add(g);
    let b = b4.wrapping_sub(8).wrapping_add(g);
    Var { r, g, b }
}

/// Enters a pixel in the recent-colors table, at the slot of its hash.
fn remember<const N: usize>(index: &mut [[u8; N]; 64], px: &[u8; N])
    requires
        N == 3 || N == 4,
    ensures
        spec_array_table(*final(index)) == spec_array_table(*old(index)).update(
            spec_hash(spec_color(*px)),
            spec_color(*px),
        ),
{
    let slot = hash_array(px);
    index[slot as usize] = *px;
}

/// Decodes the chunk at `pos` of `bytes` into the pixel `px`, which holds
/// the previous pixel. Returns the place after the chunk and how many more
/// pixels the chunk stands for, or `None` if the chunk is not complete.
fn decode_chunk<const N: usize>(
    index: &mut [[u8; N]; 64],
    px: &mut [u8; N],
    bytes: &[u8],
    pos: usize,
) -> (res: Option<(usize, usize)>)
    requires
        N == 3 || N == 4,
        pos <= bytes@.len(),
    ensures
        ({
            let before = DecoderState {
                pos: pos as nat,
                prev: spec_color(*old(px)),
                index: spec_array_table(*old(index)),
                run: 0,
            };
            match res {
                Some((next, run)) => spec_decoder_step(before, bytes@, N == 4) == Some(
                    DecoderState {
                        pos: next as nat,
                        prev: spec_color(*final(px)),
                        index: spec_array_table(*final(index)),
                        run: run as nat,
                    },
                ) && next <= bytes@.len(),
                None => spec_decoder_step(before, bytes@, N == 4) is None,
            }
        }),
{
    proof {
        reveal(spec_decoder_step);
    }
    let len = bytes.len();
    if pos >= len {
        return None;
    }
    let left = len - pos;
    let b1 = bytes[pos];
    if b1 == 0xfe {
        if left < 4 {
            return None;
        }
        px[0] = bytes[pos + 1];
        px[1] = bytes[pos + 2];
        px[2] = bytes[pos + 3];
        remember(index, px);
        Some((pos + 4, 0))
    } else if b1 == 0xff {
        if left < 5 {
            return None;
        }
        px[0] = bytes[pos + 1];
        px[1] = bytes[pos + 2];
        px[2] = bytes[pos + 3];
        if N == 4 {
            px[3] = bytes[pos + 4];
        }
        remember(index, px);
        Some((pos + 5, 0))
    } else if b1 < 0x40 {
        *px = index[b1 as usize];
        Some((pos + 1, 0))
    } else if b1 < 0x80 {
        add_rgb(px, diff_var(b1));
        remember(index, px);
        Some((pos + 1, 0))
    } else if b1 < 0xc0 {
        if left < 2 {
            return None;
        }
        add_rgb(px, luma_var(b1, bytes[pos + 1]));
        remember(index, px);
        Some((pos + 2, 0))
    } else {
        let run = b1 & 0x3f;
        assert(run == b1 - 0xc0) by (bit_vector)
            requires
                run == b1 & 0x3f,
                b1 >= 0xc0,
        ;
        Some((pos + 1, run as usize))
    }
}

/// The bytes of pixels held as channel arrays are the raw buffer of their
/// values.
proof fn lemma_flatten_is_raw<const N: usize>(pixels: Seq<[u8; N]>, colors: Seq<Color>)
    requires
        N == 3 || N == 4,
        colors.len() == pixels.len(),
        forall|j: int| 0 <= j < pixels.len() ==> spec_color(#[trigger] pixels[j]) == colors[j],
    ensures
        spec_flatten(pixels) == spec_raw(colors, N == 4),
{
}

/// The number whose four bytes, most significant first, start at `at`.
fn from_be_bytes(bytes: &[u8], at: usize) -> (x: u32)
    requires
        at + 4 <= bytes@.len(),
    ensures
        x == spec_from_be_bytes(bytes@, at as int),
{
    let b0 = bytes[at] as u32;
    let b1 = bytes[at + 1] as u32;
    let b2 = bytes[at + 2] as u32;
    let b3 = bytes[at + 3] as u32;
    assert((b0 << 24) | (b1 << 16) | (b2 << 8) | b3 == b0 * 0x100_0000 + b1 * 0x1_0000 + b2 * 0x100
        + b3) by (bit_vector)
        requires
            b0 < 256,
            b1 < 256,
            b2 < 256,
            b3 < 256,
    ;
    (b0 << 24) | (b1 << 16) | (b2 << 8) | b3
}

impl Qoi {
    /// Returns bytes size for the decoded image.
    #[inline]
    pub fn decoded_size(&self) -> (size: usize)
        requires
            self.spec_decoded_size() <= usize::MAX,
        ensures
            size == self.spec_decoded_size(),
    {
        match checked_size(self.width, self.height, self.colors.channels(), 0) {
            Some(size) => size,
            None => 0,
        }
    }

    /// Reads header from encoded QOI image.
    /// Returned header can be analyzed before proceeding parsing with
    /// [`Qoi::decode_skip_header`].
    pub fn decode_header(bytes: &[u8]) -> (res: Result<Qoi, DecodeError>)
        ensures
            res == spec_decode_header(bytes@),
    {
        if bytes.len() < QOI_HEADER_SIZE {
            return Err(DecodeError::NotEnoughData);
        }
        if bytes[0] != 0x71 || bytes[1] != 0x6f || bytes[2] != 0x69 || bytes[3] != 0x66 {
            return Err(DecodeError::InvalidMagic);
        }
        assert(bytes@.subrange(0, 4) =~= spec_magic());
        let width = from_be_bytes(bytes, 4);
        let height = from_be_bytes(bytes, 8);
        let channels = bytes[12];
        let color_space = bytes[13];
        if color_space > 1 {
            return Err(DecodeError::InvalidColorSpaceValue);
        }
        let colors = if channels == 3 {
            if color_space == 0 {
                Colors::Srgb
            } else {
                Colors::Rgb
            }
        } else if channels == 4 {
            if color_space == 0 {
                Colors::SrgbLinA
            } else {
                Colors::Rgba
            }
        } else {
            return Err(DecodeError::InvalidChannelsValue);
        };
        Ok(Qoi { width, height, colors })
    }

    /// Decode range of pixels into pixels slice.
    ///
    /// `index`, `ppx` and `prun` are the decoder between two pixels: the
    /// recent-colors table, the previous pixel, and how many pixels of a
    /// RUN chunk are still to come. They are taken as they stand and left as
    /// they are after the last pixel of `pixels`. Returns how many bytes of
    /// `bytes` were consumed.
    ///
    /// Fails with `NotEnoughData` exactly if `bytes` ends before `pixels` is
    /// full.
    pub fn decode_range<const N: usize>(
        index: &mut [[u8; N]; 64],
        ppx: &mut [u8; N],
        prun: &mut usize,
        bytes: &[u8],
        pixels: &mut [u8],
    ) -> (res: Result<usize, DecodeError>)
        requires
            N == 3 || N == 4,
            old(pixels)@.len() % (N as nat) == 0,
        ensures
            final(pixels)@.len() == old(pixels)@.len(),
            ({
                let start = DecoderState {
                    pos: 0,
                    prev: spec_color(*old(ppx)),
                    index: spec_array_table(*old(index)),
                    run: *old(prun) as nat,
                };
                let count = old(pixels)@.len() / (N as nat);
                match res {
                    Ok(used) => {
                        &&& spec_decoder_state(start, bytes@, N == 4, count) == Some(
                            DecoderState {
                                pos: used as nat,
                                prev: spec_color(*final(ppx)),
                                index: spec_array_table(*final(index)),
                                run: *final(prun) as nat,
                            },
                        )
                        &&& final(pixels)@ == spec_raw(
                            spec_decoded_pixels(start, bytes@, N == 4, count),
                            N == 4,
                        )
                    },
                    Err(e) => {
                        &&& e == DecodeError::NotEnoughData
                        &&& spec_decoder_state(start, bytes@, N == 4, count) is None
                    },
                }
            }),
    {
        let ghost start = DecoderState {
            pos: 0,
            prev: spec_color(*ppx),
            index: spec_array_table(*index),
            run: *prun as nat,
        };
        let out = cast_pixels_mut::<N>(pixels);
        let count = out.len();
        let mut px = *ppx;
        let mut run = *prun;
        let mut pos: usize = 0;
        let mut k: usize = 0;
        while k < count
            invariant
                N == 3 || N == 4,
                k <= count,
                count == out@.len(),
                count * N == old(pixels)@.len(),
                count == old(pixels)@.len() / (N as nat),
                spec_flatten(final(out)@) == after_borrow(pixels)@,
                pos <= bytes@.len(),
                start == (DecoderState {
                    pos: 0,
                    prev: spec_color(*old(ppx)),
                    index: spec_array_table(*old(index)),
                    run: *old(prun) as nat,
                }),
                spec_decoder_state(start, bytes@, N == 4, k as nat) == Some(
                    DecoderState {
                        pos: pos as nat,
                        prev: spec_color(px),
                        index: spec_array_table(*index),
                        run: run as nat,
                    },
                ),
                forall|j: int|
                    0 <= j < k ==> spec_color(#[trigger] out@[j]) == spec_decoder_state(
                        start,
                        bytes@,
                        N == 4,
                        (j + 1) as nat,
                    ).unwrap().prev,
            decreases count - k,
        {
            let ghost before = spec_decoder_state(start, bytes@, N == 4, k as nat).unwrap();
            if run > 0 {
                proof {
                    lemma_decoder_step_in_run(before, bytes@, N == 4);
                }
                run -= 1;
            } else {
                match decode_chunk(index, &mut px, bytes, pos) {
                    Some((next, more)) => {
                        pos = next;
                        run = more;
                    },
                    None => {
                        proof {
                            lemma_decoder_stays_short(
                                start,
                                bytes@,
                                N == 4,
                                (k + 1) as nat,
                                count as nat,
                            );
                        }
                        return Err(DecodeError::NotEnoughData);
                    },
                }
            }
            out[k] = px;
            k += 1;
        }
        proof {
            let colors = spec_decoded_pixels(start, bytes@, N == 4, count as nat);
            lemma_flatten_is_raw(out@, colors);
        }
        *ppx = px;
        *prun = run;
        Ok(pos)
    }

    /// Decode a QOI image from bytes slice.
    /// Decoded raw RGB or RGBA pixels are written at the start of `output`;
    /// the rest of `output` is untouched.
    ///
    /// On success this function returns `Ok(qoi)` with `qoi` describing image
    /// dimensions and color space. It fails with an error of the header;
    /// else with `OutputIsTooSmall` if `output` is shorter than the raw
    /// pixels; else with `NotEnoughData` if `bytes` ends before the last
    /// pixel. Bytes after the chunk of the last pixel are not read.
    #[inline]
    pub fn decode(bytes: &[u8], output: &mut [u8]) -> (res: Result<Qoi, DecodeError>)
        ensures
            final(output)@.len() == old(output)@.len(),
            match res {
                Ok(qoi) => {
                    let raw = spec_decode_body(qoi, bytes@.skip(14)).unwrap();
                    &&& spec_decode_into(bytes@, old(output)@.len() as int) == Ok::<
                        (Qoi, Seq<u8>),
                        DecodeError,
                    >((qoi, raw))
                    &&& raw.len() == qoi.spec_decoded_size()
                    &&& final(output)@ == raw + old(output)@.skip(raw.len() as int)
                },
                Err(e) => spec_decode_into(bytes@, old(output)@.len() as int) == Err::<
                    (Qoi, Seq<u8>),
                    DecodeError,
                >(e),
            },
    {
        let qoi = match Self::decode_header(bytes) {
            Ok(qoi) => qoi,
            Err(e) => {
                return Err(e);
            },
        };
        let body = slice_subrange(bytes, QOI_HEADER_SIZE, bytes.len());
        match qoi.decode_skip_header(body, output) {
            Ok(()) => Ok(qoi),
            Err(e) => Err(e),
        }
    }

    /// Decode a QOI image from bytes slice.
    /// `bytes` does not include QOI header. Uses provided `Qoi` value instead.
    /// Decoded raw RGB or RGBA (depending on `self.colors` value) pixels are
    /// written at the start of `output`; the rest of `output` is untouched.
    ///
    /// It fails with `OutputIsTooSmall` if `output` is shorter than the raw
    /// pixels; else with `NotEnoughData` if `bytes` ends before the last
    /// pixel.
    #[inline]
    pub fn decode_skip_header(&self, bytes: &[u8], output: &mut [u8]) -> (res: Result<
        (),
        DecodeError,
    >)
        ensures
            final(output)@.len() == old(output)@.len(),
            match res {
                Ok(()) => {
                    let raw = spec_decode_body(*self, bytes@).unwrap();
                    &&& old(output)@.len() >= self.spec_decoded_size()
                    &&& spec_decode_body(*self, bytes@) is Some
                    &&& raw.len() == self.spec_decoded_size()
                    &&& final(output)@ == raw + old(output)@.skip(raw.len() as int)
                },
                Err(DecodeError::OutputIsTooSmall) => old(output)@.len() < self.spec_decoded_size(),
                Err(DecodeError::NotEnoughData) => {
                    &&& old(output)@.len() >= self.spec_decoded_size()
                    &&& spec_decode_body(*self, bytes@) is None
                },
                Err(_) => false,
            },
    {
        let capacity = output.len();
        let px_len = match checked_size(self.width, self.height, self.colors.channels(), 0) {
            Some(px_len) => px_len,
            None => {
                return Err(DecodeError::OutputIsTooSmall);
            },
        };
        if capacity < px_len {
            return Err(DecodeError::OutputIsTooSmall);
        }
        let (pixels, _) = output.split_at_mut(px_len);
        let mut run: usize = 0;
        let decoded = if self.colors.has_alpha() {
            let blank: [u8; 4] = [0, 0, 0, 0];
            let mut index = [blank;64];
            let mut px: [u8; 4] = [0, 0, 0, 255];
            assert(spec_array_table(index) =~= spec_first_index(true));
            Self::decode_range::<4>(&mut index, &mut px, &mut run, bytes, pixels)
        } else {
            let blank: [u8; 3] = [0, 0, 0];
            let mut index = [blank;64];
            let mut px: [u8; 3] = [0, 0, 0];
            assert(spec_array_table(index) =~= spec_first_index(false));
            Self::decode_range::<3>(&mut index, &mut px, &mut run, bytes, pixels)
        };
        match decoded {
            Ok(_) => {
                proof {
                    lemma_decoded_size(*self, bytes@);
                }
                Ok(())
            },
            Err(e) => Err(e),
        }
    }

    /// Decode a QOI image from bytes slice.
    /// Decoded raw RGB or RGBA pixels are written into allocated `Vec`.
    ///
    /// On success this function returns `Ok((qoi, vec))` with `qoi`
    /// describing image dimensions and color space and `vec` containing raw
    /// pixels data. It fails with an error of the header; else with
    /// `OutputIsTooSmall` if the size of the raw pixels does not fit in
    /// `usize`; else with `NotEnoughData` if `bytes` ends before the last
    /// pixel.
    #[inline]
    pub fn decode_alloc(bytes: &[u8]) -> (res: Result<(Qoi, Vec<u8>), DecodeError>)
        ensures
            match res {
                Ok((qoi, raw)) => {
                    &&& spec_decode_into(bytes@, usize::MAX as int) == Ok::<
                        (Qoi, Seq<u8>),
                        DecodeError,
                    >((qoi, raw@))
                    &&& raw@.len() == qoi.spec_decoded_size()
                },
                Err(e) => spec_decode_into(bytes@, usize::MAX as int) == Err::<
                    (Qoi, Seq<u8>),
                    DecodeError,
                >(e),
            },
    {
        let qoi = match Self::decode_header(bytes) {
            Ok(qoi) => qoi,
            Err(e) => {
                return Err(e);
            },
        };
        let size = match checked_size(qoi.width, qoi.height, qoi.colors.channels(), 0) {
            Some(size) => size,
            None => {
                return Err(DecodeError::OutputIsTooSmall);
            },
        };
        // No chunk stands for more than 62 pixels: where the chunks cannot
        // hold the image, say so before the pixels are allocated.
        let body_len = bytes.len() - QOI_HEADER_SIZE;
        let channels = qoi.colors.channels();
        if size / channels / 62 > body_len {
            proof {
                let alpha = qoi.colors.spec_has_alpha();
                let count = qoi.spec_pixel_count();
                assert(count >= 0 && size / channels == count) by (nonlinear_arith)
                    requires
                        count == qoi.width * qoi.height,
                        size == qoi.width * qoi.height * channels,
                        channels > 0,
                ;
                if spec_decode_body(qoi, bytes@.skip(14)) is Some {
                    lemma_decoder_needs_bytes(
                        spec_decoder_start(alpha),
                        bytes@.skip(14),
                        alpha,
                        count as nat,
                    );
                }
            }
            return Err(DecodeError::NotEnoughData);
        }
        let mut output = vec![0u8; size];
        match Self::decode(bytes, output.as_mut_slice()) {
            Ok(qoi) => Ok((qoi, output)),
            Err(e) => Err(e),
        }
    }
}

} // verus!
