//! What holds of the format as a whole: how large an encoded image can be,
//! that its header names the image, and that decoding gives the pixels back.
use vstd::prelude::*;
use crate::chunk::{
    spec_chunk,
    spec_diff_byte,
    spec_fits_diff,
    spec_fits_luma,
    spec_luma_bytes,
    spec_run_byte,
};
use crate::error::DecodeError;
use crate::header::{
    Colors,
    Qoi,
    spec_be_bytes,
    spec_decode_header,
    spec_end_marker,
    spec_from_be_bytes,
    spec_header,
    spec_magic,
};
use crate::pixel::{
    Color,
    Var,
    spec_add_var,
    spec_channels,
    spec_hash,
    spec_pixels,
    spec_raw,
    spec_signed,
    spec_var,
};
use crate::stream::{
    DecoderState,
    EncoderState,
    lemma_decoder_step_in_run,
    lemma_encoder_appends,
    spec_decode,
    spec_decode_body,
    spec_decode_into,
    spec_decoded_pixels,
    spec_decoder_start,
    spec_decoder_state,
    spec_decoder_step,
    spec_diff_var,
    spec_encode_range,
    spec_luma_var,
    spec_encode,
    spec_encode_body,
    spec_encoder_start,
    spec_encoder_state,
    spec_encoder_step,
};

verus! {

/// Whether every pixel has alpha 255, as the pixels of an image without an
/// alpha channel have.
pub open spec fn spec_opaque(pixels: Seq<Color>) -> bool {
    forall|i: int| 0 <= i < pixels.len() ==> (#[trigger] pixels[i]).a == 255
}

/// The bytes that the encoder has written, and the one that a waiting run
/// will still take.
pub open spec fn spec_encoder_cost(s: EncoderState) -> int {
    s.out.len() + if s.run > 0 {
        1int
    } else {
        0int
    }
}

/// The pixels of a raw buffer are as many as its whole pixels, and opaque
/// where the buffer has no alpha channel.
pub proof fn lemma_pixels_of_raw(raw: Seq<u8>, alpha: bool, count: int)
    requires
        0 <= count,
        raw.len() == count * spec_channels(alpha),
    ensures
        spec_pixels(raw, alpha).len() == count,
        !alpha ==> spec_opaque(spec_pixels(raw, alpha)),
{
    assert(count * spec_channels(alpha) / spec_channels(alpha) == count) by (nonlinear_arith)
        requires
            spec_channels(alpha) > 0,
    ;
}

/// Every pixel costs the encoder at most one byte more than it has channels.
pub proof fn lemma_encoder_cost(start: EncoderState, pixels: Seq<Color>, alpha: bool, i: nat)
    requires
        i <= pixels.len(),
        !alpha ==> start.prev.a == 255 && spec_opaque(pixels),
    ensures
        spec_encoder_cost(spec_encoder_state(start, pixels, i)) <= spec_encoder_cost(start) + i * (
        spec_channels(alpha) + 1),
        !alpha ==> spec_encoder_state(start, pixels, i).prev.a == 255,
    decreases i,
{
    if i > 0 {
        lemma_encoder_cost(start, pixels, alpha, (i - 1) as nat);
        let before = spec_encoder_state(start, pixels, (i - 1) as nat);
        let p = pixels[i - 1];
        assert(spec_chunk(p, before.prev, before.index).len() <= 5);
        assert(p.a == before.prev.a ==> spec_chunk(p, before.prev, before.index).len() <= 4);
        assert(i * (spec_channels(alpha) + 1) == (i - 1) * (spec_channels(alpha) + 1) + (
        spec_channels(alpha) + 1)) by (nonlinear_arith);
    }
}

/// Size bound: an encoded image takes at most one byte more per pixel than
/// the raw pixels, and 14 + 8 bytes for header and end marker.
pub proof fn lemma_encoded_size_bound(qoi: Qoi, raw: Seq<u8>)
    requires
        raw.len() == qoi.spec_decoded_size(),
    ensures
        spec_encode(qoi, raw).len() <= qoi.spec_encoded_size_limit(),
{
    let alpha = qoi.colors.spec_has_alpha();
    let pixels = spec_pixels(raw, alpha);
    assert(0 <= qoi.spec_pixel_count()) by (nonlinear_arith)
        requires
            qoi.spec_pixel_count() == qoi.width * qoi.height,
    ;
    lemma_pixels_of_raw(raw, alpha, qoi.spec_pixel_count());
    lemma_encoder_cost(spec_encoder_start(alpha), pixels, alpha, pixels.len());
}

/// Adding a wrap-around difference to the pixel it was taken from gives the
/// other pixel back.
pub proof fn lemma_add_var_inverts_var(p: Color, q: Color)
    requires
        p.a == q.a,
    ensures
        spec_add_var(q, spec_var(p, q)) == p,
{
}

/// What the decoder reads out of a DIFF chunk is the difference that the
/// encoder put in.
pub proof fn lemma_diff_round_trip(v: Var)
    requires
        spec_fits_diff(v),
    ensures
        0x40 <= spec_diff_byte(v) < 0x80,
        spec_diff_var(spec_diff_byte(v)) == v,
{
    let r = spec_signed(v.r) + 2;
    let g = spec_signed(v.g) + 2;
    let b = spec_signed(v.b) + 2;
    let byte = 0x40 + r * 16 + g * 4 + b;
    assert(byte / 16 % 4 == r && byte / 4 % 4 == g && byte % 4 == b) by (nonlinear_arith)
        requires
            byte == 0x40 + r * 16 + g * 4 + b,
            0 <= r < 4,
            0 <= g < 4,
            0 <= b < 4,
    ;
}

/// What the decoder reads out of a LUMA chunk is the difference that the
/// encoder put in.
pub proof fn lemma_luma_round_trip(v: Var)
    requires
        spec_fits_luma(v),
    ensures
        0x80 <= spec_luma_bytes(v).0 < 0xc0,
        spec_luma_var(spec_luma_bytes(v).0, spec_luma_bytes(v).1) == v,
{
    let g = spec_signed(v.g) + 32;
    let r = spec_signed(v.r) - spec_signed(v.g) + 8;
    let b = spec_signed(v.b) - spec_signed(v.g) + 8;
    let b1 = 0x80 + g;
    let b2 = r * 16 + b;
    assert(b1 % 64 == g && b2 / 16 == r && b2 % 16 == b) by (nonlinear_arith)
        requires
            b1 == 0x80 + g,
            b2 == r * 16 + b,
            0 <= g < 64,
            0 <= r < 16,
            0 <= b < 16,
    ;
}

/// The decoder reads the chunk of a pixel back as that pixel, and enters it
/// in its table as the encoder did.
pub proof fn lemma_chunk_round_trip(s: DecoderState, stream: Seq<u8>, alpha: bool, p: Color)
    requires
        s.run == 0,
        s.index.len() == 64,
        !alpha ==> p.a == s.prev.a,
        s.pos + spec_chunk(p, s.prev, s.index).len() <= stream.len(),
        stream.subrange(s.pos as int, s.pos as int + spec_chunk(p, s.prev, s.index).len()) == spec_chunk(
            p,
            s.prev,
            s.index,
        ),
    ensures
        spec_decoder_step(s, stream, alpha) == Some(
            DecoderState {
                pos: s.pos + spec_chunk(p, s.prev, s.index).len(),
                prev: p,
                index: s.index.update(spec_hash(p), p),
                run: 0,
            },
        ),
{
    reveal(spec_decoder_step);
    let chunk = spec_chunk(p, s.prev, s.index);
    let pos = s.pos as int;
    let v = spec_var(p, s.prev);
    assert forall|k: int| 0 <= k < chunk.len() implies stream[pos + k] == chunk[k] by {
        assert(stream.subrange(pos, pos + chunk.len())[k] == stream[pos + k]);
    }
    assert(stream[pos] == chunk[0]);
    if s.index[spec_hash(p)] == p {
        assert(s.index.update(spec_hash(p), p) =~= s.index);
    } else if p.a == s.prev.a && spec_fits_diff(v) {
        lemma_diff_round_trip(v);
        lemma_add_var_inverts_var(p, s.prev);
    } else if p.a == s.prev.a && spec_fits_luma(v) {
        lemma_luma_round_trip(v);
        lemma_add_var_inverts_var(p, s.prev);
        assert(stream[pos + 1] == chunk[1]);
    } else if p.a == s.prev.a {
        assert(stream[pos + 1] == chunk[1]);
        assert(stream[pos + 2] == chunk[2]);
        assert(stream[pos + 3] == chunk[3]);
    } else {
        assert(stream[pos + 1] == chunk[1]);
        assert(stream[pos + 2] == chunk[2]);
        assert(stream[pos + 3] == chunk[3]);
        assert(stream[pos + 4] == chunk[4]);
    }
}

/// The decoder that stands at a RUN chunk of `run` pixels, after `t` of
/// them: it has consumed the chunk, repeats the previous pixel and has
/// `run - t` pixels to go.
proof fn lemma_run_decodes(
    start: DecoderState,
    stream: Seq<u8>,
    alpha: bool,
    k: nat,
    s: DecoderState,
    run: nat,
    t: nat,
)
    requires
        spec_decoder_state(start, stream, alpha, k) == Some(s),
        s.run == 0,
        s.pos < stream.len(),
        1 <= run <= 62,
        stream[s.pos as int] == spec_run_byte(run as int),
        1 <= t <= run,
    ensures
        spec_decoder_state(start, stream, alpha, k + t) == Some(
            DecoderState { pos: s.pos + 1, run: (run - t) as nat, ..s },
        ),
    decreases t,
{
    if t == 1 {
        reveal(spec_decoder_step);
        assert(spec_decoder_state(start, stream, alpha, k + 1) == spec_decoder_step(s, stream, alpha));
    } else {
        lemma_run_decodes(start, stream, alpha, k, s, run, (t - 1) as nat);
        let before = DecoderState { pos: s.pos + 1, run: (run - (t - 1)) as nat, ..s };
        lemma_decoder_step_in_run(before, stream, alpha);
        assert(spec_decoder_state(start, stream, alpha, k + t) == spec_decoder_step(
            before,
            stream,
            alpha,
        ));
    }
}

/// Where the encoder and the decoder stand after the first `i` pixels, the
/// decoder reading a stream that starts with what the encoder writes.
///
/// The decoder is `run` pixels behind, those that wait in the encoder for
/// their RUN chunk. There it has consumed exactly what the encoder has
/// written, and holds the same previous pixel and the same table.
pub open spec fn spec_in_step(
    start: EncoderState,
    pixels: Seq<Color>,
    stream: Seq<u8>,
    alpha: bool,
    i: nat,
) -> bool {
    let e = spec_encoder_state(start, pixels, i);
    let first = DecoderState { pos: 0, prev: start.prev, index: start.index, run: 0 };
    &&& e.run <= i
    &&& e.run < 62
    &&& e.index.len() == 64
    &&& !alpha ==> e.prev.a == 255
    &&& forall|j: int| i - e.run <= j < i ==> #[trigger] pixels[j] == e.prev
    &&& spec_decoder_state(first, stream, alpha, (i - e.run) as nat) == Some(
        DecoderState { pos: e.out.len(), prev: e.prev, index: e.index, run: 0 },
    )
    &&& forall|j: int|
        0 <= j < i - e.run ==> (#[trigger] spec_decoder_state(
            first,
            stream,
            alpha,
            (j + 1) as nat,
        )).unwrap().prev == pixels[j]
}

/// Table convergence: after every pixel the decoder, reading what the
/// encoder wrote, holds the encoder's previous pixel and recent-colors table,
/// and has yielded the pixels that the encoder has written out.
pub proof fn lemma_decoder_follows_encoder(
    start: EncoderState,
    pixels: Seq<Color>,
    stream: Seq<u8>,
    alpha: bool,
    i: nat,
)
    requires
        i <= pixels.len(),
        start.out.len() == 0,
        start.run == 0,
        start.index.len() == 64,
        !alpha ==> start.prev.a == 255 && spec_opaque(pixels),
        spec_encode_range(start, pixels).out.is_prefix_of(stream),
    ensures
        spec_in_step(start, pixels, stream, alpha, i),
    decreases i,
{
    let first = DecoderState { pos: 0, prev: start.prev, index: start.index, run: 0 };
    if i > 0 {
        let h = (i - 1) as nat;
        lemma_decoder_follows_encoder(start, pixels, stream, alpha, h);
        let e = spec_encoder_state(start, pixels, h);
        let after = spec_encoder_state(start, pixels, i);
        let p = pixels[h as int];
        let k = (h - e.run) as nat;
        let d = DecoderState { pos: e.out.len(), prev: e.prev, index: e.index, run: 0 };
        assert(after == spec_encoder_step(e, p, i == pixels.len()));
        lemma_encoder_appends(start, pixels, i, pixels.len());
        assert(after.out.is_prefix_of(stream));
        assert forall|m: int| 0 <= m < after.out.len() implies stream[m] == after.out[m] by {}
        if p == e.prev {
            if e.run + 1 == 62 || i == pixels.len() {
                let run = e.run + 1;
                assert(stream[d.pos as int] == after.out[d.pos as int]);
                assert forall|j: int| 0 <= j < i implies (#[trigger] spec_decoder_state(
                    first,
                    stream,
                    alpha,
                    (j + 1) as nat,
                )).unwrap().prev == pixels[j] by {
                    if j >= k {
                        lemma_run_decodes(first, stream, alpha, k, d, run, (j + 1 - k) as nat);
                    }
                }
                lemma_run_decodes(first, stream, alpha, k, d, run, run);
            }
        } else {
            let flushed = if e.run > 0 {
                e.out.push(spec_run_byte(e.run as int))
            } else {
                e.out
            };
            let chunk = spec_chunk(p, e.prev, e.index);
            let at = DecoderState { pos: flushed.len(), ..d };
            assert(after.out == flushed + chunk);
            if e.run > 0 {
                assert(stream[d.pos as int] == after.out[d.pos as int]);
                assert forall|j: int| k <= j < h implies (#[trigger] spec_decoder_state(
                    first,
                    stream,
                    alpha,
                    (j + 1) as nat,
                )).unwrap().prev == pixels[j] by {
                    lemma_run_decodes(first, stream, alpha, k, d, e.run, (j + 1 - k) as nat);
                }
                lemma_run_decodes(first, stream, alpha, k, d, e.run, e.run);
            }
            assert(spec_decoder_state(first, stream, alpha, h) == Some(at));
            assert(stream.subrange(at.pos as int, at.pos as int + chunk.len()) =~= chunk) by {
                assert forall|m: int| 0 <= m < chunk.len() implies stream[at.pos + m]
                    == chunk[m] by {
                    assert(stream[at.pos + m] == after.out[at.pos + m]);
                }
            }
            lemma_chunk_round_trip(at, stream, alpha, p);
            assert(spec_decoder_state(first, stream, alpha, i) == spec_decoder_step(
                at,
                stream,
                alpha,
            ));
        }
    }
}

/// Run bound: no more than 61 pixels ever wait for their RUN chunk, so that
/// every RUN chunk holds between 1 and 62 pixels.
pub proof fn lemma_run_bound(start: EncoderState, pixels: Seq<Color>, i: nat)
    requires
        start.run < 62,
    ensures
        spec_encoder_state(start, pixels, i).run < 62,
    decreases i,
{
    if i > 0 {
        lemma_run_bound(start, pixels, (i - 1) as nat);
    }
}

/// A RUN chunk of 1 to 62 pixels is a byte with tag `11` that is neither
/// the RGB nor the RGBA tag.
pub proof fn lemma_run_byte(run: int)
    requires
        1 <= run <= 62,
    ensures
        0xc0 <= spec_run_byte(run) <= 0xfd,
        spec_run_byte(run) - 0xc0 + 1 == run,
{
}

/// After the last pixel no run is waiting.
pub proof fn lemma_no_run_at_end(start: EncoderState, pixels: Seq<Color>)
    requires
        start.run == 0,
    ensures
        spec_encode_range(start, pixels).run == 0,
{
}

/// The four bytes of a number give the number back.
pub proof fn lemma_be_bytes_round_trip(x: u32, bytes: Seq<u8>, at: int)
    requires
        0 <= at,
        at + 4 <= bytes.len(),
        bytes.subrange(at, at + 4) == spec_be_bytes(x),
    ensures
        spec_from_be_bytes(bytes, at) == x,
{
    assert(bytes[at] == bytes.subrange(at, at + 4)[0]);
    assert(bytes[at + 1] == bytes.subrange(at, at + 4)[1]);
    assert(bytes[at + 2] == bytes.subrange(at, at + 4)[2]);
    assert(bytes[at + 3] == bytes.subrange(at, at + 4)[3]);
    assert(x / 0x100_0000 * 0x100_0000 + x / 0x1_0000 % 0x100 * 0x1_0000 + x / 0x100 % 0x100 * 0x100
        + x % 0x100 == x && x / 0x100_0000 < 0x100) by (bit_vector);
}

/// Header determinism: the header of an encoded image parses to the
/// descriptor that the image was encoded with.
pub proof fn lemma_header_round_trip(qoi: Qoi, raw: Seq<u8>)
    ensures
        spec_decode_header(spec_encode(qoi, raw)) == Ok::<Qoi, DecodeError>(qoi),
        spec_encode(qoi, raw).subrange(0, 14) == spec_header(qoi),
{
    let encoded = spec_encode(qoi, raw);
    let header = spec_header(qoi);
    assert(header.len() == 14);
    assert(encoded.subrange(0, 14) =~= header);
    assert forall|k: int| 0 <= k < 14 implies encoded[k] == header[k] by {
        assert(encoded.subrange(0, 14)[k] == encoded[k]);
    }
    assert(encoded.subrange(0, 4) =~= spec_magic());
    assert(encoded.subrange(4, 8) =~= spec_be_bytes(qoi.width));
    assert(encoded.subrange(8, 12) =~= spec_be_bytes(qoi.height));
    lemma_be_bytes_round_trip(qoi.width, encoded, 4);
    lemma_be_bytes_round_trip(qoi.height, encoded, 8);
    assert(encoded[12] == qoi.colors.spec_channels() as u8);
    assert(encoded[13] == qoi.colors.spec_color_space());
}

/// The raw buffer of the pixels of a raw buffer of whole pixels is that
/// buffer.
pub proof fn lemma_raw_of_pixels(raw: Seq<u8>, alpha: bool)
    requires
        raw.len() % (spec_channels(alpha) as nat) == 0,
    ensures
        spec_raw(spec_pixels(raw, alpha), alpha) == raw,
{
    let n = spec_channels(alpha);
    let pixels = spec_pixels(raw, alpha);
    assert(pixels.len() * n == raw.len()) by (nonlinear_arith)
        requires
            pixels.len() == raw.len() as int / n,
            raw.len() as int % n == 0,
            n > 0,
    ;
    assert forall|k: int| 0 <= k < raw.len() implies spec_raw(pixels, alpha)[k] == raw[k] by {
        let j = k / n;
        let c = k % n;
        assert(0 <= j < pixels.len() && j * n + c == k && 0 <= c < n) by (nonlinear_arith)
            requires
                0 <= k < pixels.len() * n,
                j == k / n,
                c == k % n,
                n > 0,
        ;
    }
    assert(spec_raw(pixels, alpha) =~= raw);
}

/// Round trip of the chunks: the decoder reads the pixels back out of what
/// the encoder wrote for them, whatever follows in the stream.
pub proof fn lemma_body_round_trip(pixels: Seq<Color>, alpha: bool, stream: Seq<u8>)
    requires
        !alpha ==> spec_opaque(pixels),
        spec_encode_body(pixels, alpha).is_prefix_of(stream),
    ensures
        spec_decoder_state(spec_decoder_start(alpha), stream, alpha, pixels.len()) is Some,
        spec_decoded_pixels(spec_decoder_start(alpha), stream, alpha, pixels.len()) == pixels,
{
    let start = spec_encoder_start(alpha);
    lemma_decoder_follows_encoder(start, pixels, stream, alpha, pixels.len());
    lemma_no_run_at_end(start, pixels);
    assert(spec_decoded_pixels(spec_decoder_start(alpha), stream, alpha, pixels.len())
        =~= pixels);
}

/// The chunks of an image decode to its raw pixels, whatever follows them
/// in the stream.
pub proof fn lemma_decode_body_of_encoded(qoi: Qoi, raw: Seq<u8>, stream: Seq<u8>)
    requires
        raw.len() == qoi.spec_decoded_size(),
        spec_encode_body(
            spec_pixels(raw, qoi.colors.spec_has_alpha()),
            qoi.colors.spec_has_alpha(),
        ).is_prefix_of(stream),
    ensures
        spec_decode_body(qoi, stream) == Some(raw),
{
    let alpha = qoi.colors.spec_has_alpha();
    let channels = spec_channels(alpha);
    let pixels = spec_pixels(raw, alpha);
    let count = qoi.spec_pixel_count();
    assert(0 <= count && (count * channels) % channels == 0) by (nonlinear_arith)
        requires
            count == qoi.width * qoi.height,
            channels > 0,
    ;
    assert(raw.len() == count * channels);
    lemma_pixels_of_raw(raw, alpha, count);
    lemma_raw_of_pixels(raw, alpha);
    lemma_body_round_trip(pixels, alpha, stream);
    assert(pixels.len() == count as nat);
}

/// Round trip: decoding an encoded image gives the descriptor and the
/// pixels that were encoded.
pub proof fn lemma_round_trip(qoi: Qoi, raw: Seq<u8>)
    requires
        raw.len() == qoi.spec_decoded_size(),
    ensures
        spec_decode(spec_encode(qoi, raw)) == Ok::<(Qoi, Seq<u8>), DecodeError>((qoi, raw)),
        forall|capacity: int|
            capacity >= raw.len() ==> #[trigger] spec_decode_into(spec_encode(qoi, raw), capacity)
                == Ok::<(Qoi, Seq<u8>), DecodeError>((qoi, raw)),
{
    let alpha = qoi.colors.spec_has_alpha();
    let body = spec_encode_body(spec_pixels(raw, alpha), alpha);
    let encoded = spec_encode(qoi, raw);
    lemma_header_round_trip(qoi, raw);
    assert(spec_header(qoi).len() == 14);
    assert(encoded.skip(14) =~= body + spec_end_marker());
    lemma_decode_body_of_encoded(qoi, raw, encoded.skip(14));
    assert(spec_decode_header(encoded) == Ok::<Qoi, DecodeError>(qoi));
    assert(spec_decode_body(qoi, encoded.skip(14)) == Some(raw));
}

/// Wrap-around arithmetic: an image of one pixel, whatever its channels
/// hold, decodes to itself.
pub proof fn lemma_one_pixel_round_trip(colors: Colors, raw: Seq<u8>)
    requires
        raw.len() == colors.spec_channels(),
    ensures
        spec_decode(spec_encode(Qoi { width: 1, height: 1, colors }, raw)) == Ok::<
            (Qoi, Seq<u8>),
            DecodeError,
        >((Qoi { width: 1, height: 1, colors }, raw)),
{
    lemma_round_trip(Qoi { width: 1, height: 1, colors }, raw);
}

/// A pixel whose alpha differs from that of the previous pixel, and which
/// the table does not hold, takes an RGBA chunk: no other chunk can change
/// alpha.
pub proof fn lemma_alpha_change_is_rgba(p: Color, prev: Color, index: Seq<Color>)
    requires
        p.a != prev.a,
        index[spec_hash(p)] != p,
    ensures
        spec_chunk(p, prev, index) == seq![0xffu8, p.r, p.g, p.b, p.a],
{
}

} // verus!
