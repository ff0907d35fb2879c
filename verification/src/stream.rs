//! The wire format as two state machines over pixel values: the encoder
//! consumes pixels and appends chunks, the decoder consumes chunks and yields
//! pixels. Both keep the previous pixel, the recent-colors table and a run
//! counter.
use vstd::prelude::*;
use crate::chunk::{spec_chunk, spec_run_byte};
use crate::error::DecodeError;
use crate::header::{Qoi, spec_decode_header, spec_end_marker, spec_header};
use crate::pixel::{
    Color,
    Var,
    spec_add_var,
    spec_hash,
    spec_pixels,
    spec_raw,
    spec_unsigned,
};

verus! {

/// The pixel that precedes the first pixel of an image: opaque black.
pub open spec fn spec_first_prev() -> Color {
    Color { r: 0, g: 0, b: 0, a: 255 }
}

/// The recent-colors table at the start of an image: 64 slots, every channel
/// that the pixels carry zero.
pub open spec fn spec_first_index(alpha: bool) -> Seq<Color> {
    Seq::new(
        64,
        |i: int|
            Color {
                r: 0,
                g: 0,
                b: 0,
                a: if alpha {
                    0u8
                } else {
                    255u8
                },
            },
    )
}

/// The encoder between two pixels.
pub struct EncoderState {
    /// The bytes written so far.
    pub out: Seq<u8>,
    /// The previous pixel.
    pub prev: Color,
    /// The recent-colors table.
    pub index: Seq<Color>,
    /// How many pixels equal to the previous one are waiting for their RUN
    /// chunk.
    pub run: nat,
}

/// The encoder before the first pixel of an image.
pub open spec fn spec_encoder_start(alpha: bool) -> EncoderState {
    EncoderState { out: Seq::empty(), prev: spec_first_prev(), index: spec_first_index(alpha), run: 0 }
}

/// The encoder after one more pixel `p`; `last` tells that no pixel follows.
///
/// A pixel equal to the previous one joins the run, which is written out
/// when it reaches 62 or the input ends. Any other pixel first ends a run
/// that is waiting, then gets its own chunk, enters the table and becomes the
/// previous pixel.
pub open spec fn spec_encoder_step(s: EncoderState, p: Color, last: bool) -> EncoderState {
    if p == s.prev {
        if s.run + 1 == 62 || last {
            EncoderState { out: s.out.push(spec_run_byte(s.run as int + 1)), run: 0, ..s }
        } else {
            EncoderState { run: s.run + 1, ..s }
        }
    } else {
        let flushed = if s.run > 0 {
            s.out.push(spec_run_byte(s.run as int))
        } else {
            s.out
        };
        EncoderState {
            out: flushed + spec_chunk(p, s.prev, s.index),
            prev: p,
            index: s.index.update(spec_hash(p), p),
            run: 0,
        }
    }
}

/// The encoder that started in `start`, after the first `i` of `pixels`.
pub open spec fn spec_encoder_state(start: EncoderState, pixels: Seq<Color>, i: nat) -> EncoderState
    decreases i,
{
    if i == 0 {
        start
    } else {
        spec_encoder_step(
            spec_encoder_state(start, pixels, (i - 1) as nat),
            pixels[i - 1],
            i == pixels.len(),
        )
    }
}

/// The encoder that started in `start`, after all of `pixels`.
pub open spec fn spec_encode_range(start: EncoderState, pixels: Seq<Color>) -> EncoderState {
    spec_encoder_state(start, pixels, pixels.len())
}

/// The chunks of an image.
pub open spec fn spec_encode_body(pixels: Seq<Color>, alpha: bool) -> Seq<u8> {
    spec_encode_range(spec_encoder_start(alpha), pixels).out
}

/// The encoded image: header, chunks, end marker. `raw` holds the pixels of
/// the image, and nothing after them.
pub open spec fn spec_encode(qoi: Qoi, raw: Seq<u8>) -> Seq<u8> {
    spec_header(qoi) + spec_encode_body(spec_pixels(raw, qoi.colors.spec_has_alpha()), qoi.colors.spec_has_alpha())
        + spec_end_marker()
}

/// The decoder between two pixels.
pub struct DecoderState {
    /// How many bytes of the stream have been consumed.
    pub pos: nat,
    /// The previous pixel.
    pub prev: Color,
    /// The recent-colors table.
    pub index: Seq<Color>,
    /// How many more pixels the last RUN chunk stands for.
    pub run: nat,
}

/// The decoder before the first chunk of an image.
pub open spec fn spec_decoder_start(alpha: bool) -> DecoderState {
    DecoderState { pos: 0, prev: spec_first_prev(), index: spec_first_index(alpha), run: 0 }
}

/// The difference that a DIFF chunk holds.
pub open spec fn spec_diff_var(b1: u8) -> Var {
    Var {
        r: spec_unsigned(b1 / 16 % 4 - 2),
        g: spec_unsigned(b1 / 4 % 4 - 2),
        b: spec_unsigned(b1 % 4 - 2),
    }
}

/// The difference that the two bytes of a LUMA chunk hold.
pub open spec fn spec_luma_var(b1: u8, b2: u8) -> Var {
    let dg = b1 % 64 - 32;
    Var {
        r: spec_unsigned(b2 / 16 - 8 + dg),
        g: spec_unsigned(dg),
        b: spec_unsigned(b2 % 16 - 8 + dg),
    }
}

/// The decoder after one more pixel, or `None` if the stream ends before the
/// chunk of that pixel is complete. The pixel is `prev` of the new state.
///
/// While a run lasts, the pixel is the previous one and no byte is consumed.
/// Otherwise the byte at `pos` selects the chunk: the tags of eight bits,
/// RGB and RGBA, come before the tags of two bits. Without an alpha channel
/// the alpha byte of an RGBA chunk is skipped.
#[verifier::opaque]
pub open spec fn spec_decoder_step(s: DecoderState, bytes: Seq<u8>, alpha: bool) -> Option<
    DecoderState,
> {
    let pos = s.pos as int;
    if s.run > 0 {
        Some(DecoderState { run: (s.run - 1) as nat, ..s })
    } else if pos >= bytes.len() {
        None
    } else {
        let b1 = bytes[pos];
        if b1 == 0xfe {
            if pos + 4 > bytes.len() {
                None
            } else {
                let p = Color {
                    r: bytes[pos + 1],
                    g: bytes[pos + 2],
                    b: bytes[pos + 3],
                    a: s.prev.a,
                };
                Some(
                    DecoderState {
                        pos: s.pos + 4,
                        prev: p,
                        index: s.index.update(spec_hash(p), p),
                        run: 0,
                    },
                )
            }
        } else if b1 == 0xff {
            if pos + 5 > bytes.len() {
                None
            } else {
                let p = Color {
                    r: bytes[pos + 1],
                    g: bytes[pos + 2],
                    b: bytes[pos + 3],
                    a: if alpha {
                        bytes[pos + 4]
                    } else {
                        s.prev.a
                    },
                };
                Some(
                    DecoderState {
                        pos: s.pos + 5,
                        prev: p,
                        index: s.index.update(spec_hash(p), p),
                        run: 0,
                    },
                )
            }
        } else if b1 < 0x40 {
            Some(DecoderState { pos: s.pos + 1, prev: s.index[b1 as int], index: s.index, run: 0 })
        } else if b1 < 0x80 {
            let p = spec_add_var(s.prev, spec_diff_var(b1));
            Some(
                DecoderState {
                    pos: s.pos + 1,
                    prev: p,
                    index: s.index.update(spec_hash(p), p),
                    run: 0,
                },
            )
        } else if b1 < 0xc0 {
            if pos + 2 > bytes.len() {
                None
            } else {
                let p = spec_add_var(s.prev, spec_luma_var(b1, bytes[pos + 1]));
                Some(
                    DecoderState {
                        pos: s.pos + 2,
                        prev: p,
                        index: s.index.update(spec_hash(p), p),
                        run: 0,
                    },
                )
            }
        } else {
            Some(DecoderState { pos: s.pos + 1, run: (b1 - 0xc0) as nat, ..s })
        }
    }
}

/// The decoder that started in `start`, after `k` pixels, or `None` if the
/// stream ends before the `k`-th pixel is complete.
pub open spec fn spec_decoder_state(start: DecoderState, bytes: Seq<u8>, alpha: bool, k: nat) -> Option<
    DecoderState,
>
    decreases k,
{
    if k == 0 {
        Some(start)
    } else {
        match spec_decoder_state(start, bytes, alpha, (k - 1) as nat) {
            None => None,
            Some(s) => spec_decoder_step(s, bytes, alpha),
        }
    }
}

/// The first `count` pixels that the decoder yields, where the stream holds
/// that many.
pub open spec fn spec_decoded_pixels(
    start: DecoderState,
    bytes: Seq<u8>,
    alpha: bool,
    count: nat,
) -> Seq<Color> {
    Seq::new(count, |k: int| spec_decoder_state(start, bytes, alpha, (k + 1) as nat).unwrap().prev)
}

/// The raw pixels of the image with descriptor `qoi` whose chunks are
/// `body`, or `None` if the chunks end before the last pixel. Bytes after
/// the chunk of the last pixel are not looked at.
pub open spec fn spec_decode_body(qoi: Qoi, body: Seq<u8>) -> Option<Seq<u8>> {
    let alpha = qoi.colors.spec_has_alpha();
    let count = qoi.spec_pixel_count() as nat;
    if spec_decoder_state(spec_decoder_start(alpha), body, alpha, count) is Some {
        Some(spec_raw(spec_decoded_pixels(spec_decoder_start(alpha), body, alpha, count), alpha))
    } else {
        None
    }
}

/// What decoding an encoded image into a buffer of `capacity` bytes gives:
/// the descriptor and the raw pixels; or an error of the header; else
/// `OutputIsTooSmall` if the raw pixels take more than `capacity` bytes;
/// else `NotEnoughData` if the chunks end early.
pub open spec fn spec_decode_into(bytes: Seq<u8>, capacity: int) -> Result<
    (Qoi, Seq<u8>),
    DecodeError,
> {
    match spec_decode_header(bytes) {
        Err(e) => Err(e),
        Ok(qoi) => if capacity < qoi.spec_decoded_size() {
            Err(DecodeError::OutputIsTooSmall)
        } else {
            match spec_decode_body(qoi, bytes.skip(14)) {
                None => Err(DecodeError::NotEnoughData),
                Some(raw) => Ok((qoi, raw)),
            }
        },
    }
}

/// What decoding an encoded image gives where space is no concern: the
/// descriptor and the raw pixels, or an error of the header, or
/// `NotEnoughData` if the chunks end early.
pub open spec fn spec_decode(bytes: Seq<u8>) -> Result<(Qoi, Seq<u8>), DecodeError> {
    match spec_decode_header(bytes) {
        Err(e) => Err(e),
        Ok(qoi) => match spec_decode_body(qoi, bytes.skip(14)) {
            None => Err(DecodeError::NotEnoughData),
            Some(raw) => Ok((qoi, raw)),
        },
    }
}

/// The encoder only ever appends: what it has written after `i` pixels is
/// the start of what it has written after `j >= i` pixels.
pub proof fn lemma_encoder_appends(start: EncoderState, pixels: Seq<Color>, i: nat, j: nat)
    requires
        i <= j,
    ensures
        spec_encoder_state(start, pixels, i).out.is_prefix_of(
            spec_encoder_state(start, pixels, j).out,
        ),
    decreases j,
{
    if i < j {
        lemma_encoder_appends(start, pixels, i, (j - 1) as nat);
    }
}

/// A stream that ends before the `k`-th pixel ends before every later one.
pub proof fn lemma_decoder_stays_short(
    start: DecoderState,
    bytes: Seq<u8>,
    alpha: bool,
    k: nat,
    later: nat,
)
    requires
        k <= later,
        spec_decoder_state(start, bytes, alpha, k) is None,
    ensures
        spec_decoder_state(start, bytes, alpha, later) is None,
    decreases later,
{
    if k < later {
        lemma_decoder_stays_short(start, bytes, alpha, k, (later - 1) as nat);
    }
}

/// While a run lasts, the decoder repeats the previous pixel and consumes
/// nothing.
pub proof fn lemma_decoder_step_in_run(s: DecoderState, bytes: Seq<u8>, alpha: bool)
    requires
        s.run > 0,
    ensures
        spec_decoder_step(s, bytes, alpha) == Some(DecoderState { run: (s.run - 1) as nat, ..s }),
{
    reveal(spec_decoder_step);
}

/// The raw pixels of a decoded image take as many bytes as its descriptor
/// says.
pub proof fn lemma_decoded_size(qoi: Qoi, body: Seq<u8>)
    requires
        spec_decode_body(qoi, body) is Some,
    ensures
        spec_decode_body(qoi, body).unwrap().len() == qoi.spec_decoded_size(),
{
}

/// Every byte of a stream stands for at most 62 pixels: the decoder that has
/// yielded `k` pixels, and owes `run` more, has consumed at least a 62nd of
/// that many bytes, and none beyond the end of the stream.
pub proof fn lemma_decoder_needs_bytes(start: DecoderState, bytes: Seq<u8>, alpha: bool, k: nat)
    requires
        start.pos <= bytes.len(),
        spec_decoder_state(start, bytes, alpha, k) is Some,
    ensures
        ({
            let s = spec_decoder_state(start, bytes, alpha, k).unwrap();
            &&& start.pos <= s.pos <= bytes.len()
            &&& k + s.run <= start.run + 62 * (s.pos - start.pos)
        }),
    decreases k,
{
    if k > 0 {
        reveal(spec_decoder_step);
        lemma_decoder_needs_bytes(start, bytes, alpha, (k - 1) as nat);
    }
}

} // verus!
