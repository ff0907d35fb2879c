//! The encoder: raw pixels to chunks, and the framing around them.
use vstd::prelude::*;
use vstd::slice::slice_subrange;
use crate::chunk::{QOI_OP_INDEX, QOI_OP_RGB, QOI_OP_RGBA, QOI_OP_RUN, spec_chunk, spec_run_byte};
use crate::error::EncodeError;
use crate::header::{
    Colors,
    QOI_HEADER_SIZE,
    QOI_PADDING,
    Qoi,
    checked_size,
    spec_be_bytes,
    spec_end_marker,
    spec_header,
};
use crate::laws::lemma_encoded_size_bound;
use crate::pixel::{
    Pixel,
    Rgb,
    Rgba,
    lemma_has_alpha,
    spec_channels,
    spec_hash,
    spec_pixels,
    spec_table,
};
use crate::stream::{
    EncoderState,
    lemma_encoder_appends,
    spec_encode,
    spec_encode_body,
    spec_encode_range,
    spec_encoder_state,
    spec_first_index,
};

verus! {

/// Two sequences that agree from `at` on agree from any later place on.
proof fn lemma_skip_further(a: Seq<u8>, b: Seq<u8>, at: int, more: int)
    requires
        0 <= at,
        0 <= more,
        at + more <= a.len(),
        a.len() == b.len(),
        a.skip(at) == b.skip(at),
    ensures
        a.skip(at + more) == b.skip(at + more),
{
    assert(b.skip(at + more) =~= b.skip(at).skip(more));
}

/// Stores `chunk` at `pos` of `output` if it fits there, and tells whether
/// it did. Nothing else in `output` changes.
fn put_chunk(output: &mut [u8], pos: usize, chunk: &[u8]) -> (fits: bool)
    requires
        pos <= old(output)@.len(),
    ensures
        fits == (pos + chunk@.len() <= old(output)@.len()),
        final(output)@.len() == old(output)@.len(),
        fits ==> final(output)@.subrange(0, pos + chunk@.len()) == old(output)@.subrange(
            0,
            pos as int,
        ) + chunk@,
        fits ==> final(output)@.skip(pos + chunk@.len()) == old(output)@.skip(pos + chunk@.len()),
        !fits ==> final(output)@ == old(output)@,
{
    let len = chunk.len();
    let total = output.len();
    if total - pos < len {
        return false;
    }
    let mut k: usize = 0;
    while k < len
        invariant
            k <= len,
            len == chunk@.len(),
            pos + len <= total,
            total == output@.len(),
            output@.len() == old(output)@.len(),
            forall|j: int| 0 <= j < pos ==> output@[j] == old(output)@[j],
            forall|j: int| 0 <= j < k ==> output@[pos + j] == chunk@[j],
            forall|j: int| pos + k <= j < total ==> output@[j] == old(output)@[j],
        decreases len - k,
    {
        output[pos + k] = chunk[k];
        k += 1;
    }
    true
}

/// Chooses the chunk of a pixel that differs from the previous one, and
/// enters the pixel in the recent-colors table. The chunk is the first `len`
/// bytes of `chunk`.
fn encode_pixel<P: Pixel>(px: &P, px_prev: &P, index: &mut [P; 64], chunk: &mut [u8; 5]) -> (len:
    usize)
    ensures
        1 <= len <= 5,
        final(chunk)@.subrange(0, len as int) == spec_chunk(
            px.color(),
            px_prev.color(),
            spec_table(*old(index)),
        ),
        spec_table(*final(index)) == spec_table(*old(index)).update(
            spec_hash(px.color()),
            px.color(),
        ),
{
    let slot = px.hash();
    proof {
        px.lemma_opaque();
        px_prev.lemma_opaque();
    }
    if index[slot as usize].equal(px) {
        chunk[0] = QOI_OP_INDEX | slot;
        proof {
            assert(0u8 | slot == slot) by (bit_vector);
        }
        return 1;
    }
    index[slot as usize] = *px;
    if P::HAS_ALPHA && px_prev.a() != px.a() {
        let rgba = px.rgba();
        chunk[0] = QOI_OP_RGBA;
        chunk[1] = rgba[0];
        chunk[2] = rgba[1];
        chunk[3] = rgba[2];
        chunk[4] = rgba[3];
        return 5;
    }
    let v = px.var(px_prev);
    match v.diff() {
        Some(diff) => {
            chunk[0] = diff;
            1
        },
        None => match v.luma() {
            Some(luma) => {
                chunk[0] = luma[0];
                chunk[1] = luma[1];
                2
            },
            None => {
                let rgb = px.rgb();
                chunk[0] = QOI_OP_RGB;
                chunk[1] = rgb[0];
                chunk[2] = rgb[1];
                chunk[3] = rgb[2];
                4
            },
        },
    }
}

/// Stores the four bytes of `x`, most significant first, at `pos` of
/// `output`.
fn put_be_bytes(output: &mut [u8], pos: usize, x: u32)
    requires
        pos + 4 <= old(output)@.len(),
    ensures
        final(output)@.len() == old(output)@.len(),
        final(output)@.subrange(0, pos + 4) == old(output)@.subrange(0, pos as int) + spec_be_bytes(x),
        final(output)@.skip(pos + 4) == old(output)@.skip(pos + 4),
{
    let bytes: [u8; 4] = [
        (x >> 24) as u8,
        ((x >> 16) & 0xff) as u8,
        ((x >> 8) & 0xff) as u8,
        (x & 0xff) as u8,
    ];
    proof {
        assert(x >> 24 == x / 0x100_0000 && (x >> 16) & 0xff == x / 0x1_0000 % 0x100 && (x >> 8) & 0xff
            == x / 0x100 % 0x100 && x & 0xff == x % 0x100) by (bit_vector);
    }
    put_chunk(output, pos, bytes.as_slice());
}

/// Stores the header of an image at the start of `output`.
fn put_header(qoi: &Qoi, output: &mut [u8])
    requires
        old(output)@.len() >= 14,
    ensures
        final(output)@.len() == old(output)@.len(),
        final(output)@.subrange(0, 14) == spec_header(*qoi),
        final(output)@.skip(14) == old(output)@.skip(14),
{
    let ghost given = output@;
    let magic: [u8; 4] = [0x71, 0x6f, 0x69, 0x66];
    put_chunk(output, 0, magic.as_slice());
    let ghost with_magic = output@;
    put_be_bytes(output, 4, qoi.width);
    let ghost with_width = output@;
    put_be_bytes(output, 8, qoi.height);
    let ghost with_height = output@;
    let tail: [u8; 2] = [
        if qoi.colors.has_alpha() {
            4
        } else {
            3
        },
        match qoi.colors {
            Colors::Rgb | Colors::Rgba => 1,
            Colors::Srgb | Colors::SrgbLinA => 0,
        },
    ];
    put_chunk(output, 12, tail.as_slice());
    proof {
        lemma_skip_further(with_magic, given, 4, 10);
        lemma_skip_further(with_width, with_magic, 8, 6);
        lemma_skip_further(with_height, with_width, 12, 2);
    }
}

/// An output that took a header, then chunks behind it, then an end marker
/// behind those, holds the three in a row and is otherwise as it was given.
proof fn lemma_framed(
    given: Seq<u8>,
    framed: Seq<u8>,
    filled: Seq<u8>,
    done: Seq<u8>,
    header: Seq<u8>,
    chunks: Seq<u8>,
    marker: Seq<u8>,
)
    requires
        header.len() == 14,
        14 + chunks.len() + marker.len() <= given.len(),
        framed.len() == given.len(),
        framed.subrange(0, 14) == header,
        framed.skip(14) == given.skip(14),
        filled == framed.subrange(0, 14) + (chunks + framed.subrange(14, framed.len() as int).skip(
            chunks.len() as int,
        )),
        done.len() == given.len(),
        done.subrange(0, 14 + chunks.len() as int + marker.len() as int) == filled.subrange(0, 14 + chunks.len() as int)
            + marker,
        done.skip(14 + chunks.len() as int + marker.len() as int) == filled.skip(
            14 + chunks.len() as int + marker.len() as int,
        ),
    ensures
        done == header + chunks + marker + given.skip(14 + chunks.len() as int + marker.len() as int),
{
    let size: int = 14 + chunks.len() as int + marker.len() as int;
    let wanted = header + chunks + marker + given.skip(size);
    assert forall|k: int| 0 <= k < done.len() implies done[k] == wanted[k] by {
        if k < size {
            assert(done[k] == done.subrange(0, size)[k]);
            if k < 14 + chunks.len() {
                assert(filled[k] == filled.subrange(0, 14 + chunks.len() as int)[k]);
                if k < 14 {
                    assert(framed[k] == framed.subrange(0, 14)[k]);
                }
            }
        } else {
            assert(done[k] == done.skip(size)[k - size]);
            assert(filled[k] == filled.skip(size)[k - size]);
            assert(framed[k] == framed.skip(14)[k - 14]);
            assert(given[k] == given.skip(14)[k - 14]);
        }
    }
    assert(done =~= wanted);
}

impl Qoi {
    /// Encode range of pixels into output slice.
    /// This does not include header and end padding.
    ///
    /// `index`, `px_prev` and `run` are the encoder between two pixels; they
    /// are taken as they stand and left as they are after the last pixel of
    /// `pixels`, whose run, if any, is written out. Bytes of `pixels` after
    /// the last whole pixel are not read. Returns the number of bytes
    /// written at the start of `output`; the rest of `output` is untouched.
    ///
    /// Fails with `OutputIsTooSmall` exactly if the chunks do not fit in
    /// `output`.
    pub fn encode_range<P: Pixel>(
        &self,
        index: &mut [P; 64],
        px_prev: &mut P,
        run: &mut usize,
        pixels: &[u8],
        output: &mut [u8],
    ) -> (res: Result<usize, EncodeError>)
        requires
            self.colors.spec_has_alpha() == P::HAS_ALPHA,
            *old(run) < 62,
        ensures
            final(output)@.len() == old(output)@.len(),
            ({
                let start = EncoderState {
                    out: Seq::empty(),
                    prev: old(px_prev).color(),
                    index: spec_table(*old(index)),
                    run: *old(run) as nat,
                };
                let end = spec_encode_range(start, spec_pixels(pixels@, P::HAS_ALPHA));
                match res {
                    Ok(size) => {
                        &&& size == end.out.len()
                        &&& size <= old(output)@.len()
                        &&& final(output)@ == end.out + old(output)@.skip(size as int)
                        &&& final(px_prev).color() == end.prev
                        &&& spec_table(*final(index)) == end.index
                        &&& *final(run) == end.run
                    },
                    Err(e) => {
                        &&& e == EncodeError::OutputIsTooSmall
                        &&& old(output)@.len() < end.out.len()
                    },
                }
            }),
    {
        let ghost start = EncoderState {
            out: Seq::empty(),
            prev: px_prev.color(),
            index: spec_table(*index),
            run: *run as nat,
        };
        let ghost colors = spec_pixels(pixels@, P::HAS_ALPHA);
        let channels: usize = if P::HAS_ALPHA {
            4
        } else {
            3
        };
        let total = pixels.len();
        let count = total / channels;
        let capacity = output.len();
        let mut px = *px_prev;
        let mut chunk: [u8; 5] = [0, 0, 0, 0, 0];
        let mut pos: usize = 0;
        let mut i: usize = 0;
        proof {
            assert(output@.subrange(0, 0) =~= Seq::<u8>::empty());
        }
        while i < count
            invariant
                i <= count,
                start == (EncoderState {
                    out: Seq::empty(),
                    prev: old(px_prev).color(),
                    index: spec_table(*old(index)),
                    run: *old(run) as nat,
                }),
                count == colors.len(),
                colors == spec_pixels(pixels@, P::HAS_ALPHA),
                channels == spec_channels(P::HAS_ALPHA),
                total == pixels@.len(),
                count == total / channels,
                pos <= capacity,
                capacity == output@.len(),
                output@.len() == old(output)@.len(),
                output@.skip(pos as int) == old(output)@.skip(pos as int),
                *run < 62,
                spec_encoder_state(start, colors, i as nat) == (EncoderState {
                    out: output@.subrange(0, pos as int),
                    prev: px_prev.color(),
                    index: spec_table(*index),
                    run: *run as nat,
                }),
            decreases count - i,
        {
            let ghost before = spec_encoder_state(start, colors, i as nat);
            let ghost after = spec_encoder_state(start, colors, (i + 1) as nat);
            let ghost written = output@;
            proof {
                lemma_encoder_appends(start, colors, (i + 1) as nat, count as nat);
            }
            let at = i * channels;
            px.read(slice_subrange(pixels, at, at + channels));
            if px.equal(px_prev) {
                *run += 1;
                if *run == 62 || i + 1 == count {
                    chunk[0] = QOI_OP_RUN | ((*run - 1) as u8);
                    proof {
                        let low = (*run - 1) as u8;
                        assert(0xc0u8 | low == 0xc0 + low) by (bit_vector)
                            requires
                                low < 62,
                        ;
                    }
                    if !put_chunk(output, pos, slice_subrange(chunk.as_slice(), 0, 1)) {
                        return Err(EncodeError::OutputIsTooSmall);
                    }
                    proof {
                        lemma_skip_further(written, old(output)@, pos as int, 1);
                        assert(output@.subrange(0, pos + 1) =~= after.out);
                    }
                    pos += 1;
                    *run = 0;
                }
            } else {
                if *run > 0 {
                    chunk[0] = QOI_OP_RUN | ((*run - 1) as u8);
                    proof {
                        let low = (*run - 1) as u8;
                        assert(0xc0u8 | low == 0xc0 + low) by (bit_vector)
                            requires
                                low < 62,
                        ;
                    }
                    if !put_chunk(output, pos, slice_subrange(chunk.as_slice(), 0, 1)) {
                        return Err(EncodeError::OutputIsTooSmall);
                    }
                    proof {
                        lemma_skip_further(written, old(output)@, pos as int, 1);
                        assert(output@.subrange(0, pos + 1) =~= before.out.push(
                            spec_run_byte(*run as int),
                        ));
                    }
                    pos += 1;
                    *run = 0;
                }
                let ghost flushed = output@;
                let len = encode_pixel(&px, px_prev, index, &mut chunk);
                if !put_chunk(output, pos, slice_subrange(chunk.as_slice(), 0, len)) {
                    return Err(EncodeError::OutputIsTooSmall);
                }
                proof {
                    lemma_skip_further(flushed, old(output)@, pos as int, len as int);
                }
                pos += len;
                *px_prev = px;
            }
            i += 1;
        }
        Ok(pos)
    }

    /// Encodes the pixels of an image, from the first to the last, into
    /// chunks at the start of `output`.
    fn encode_body(&self, pixels: &[u8], output: &mut [u8]) -> (res: Result<usize, EncodeError>)
        ensures
            final(output)@.len() == old(output)@.len(),
            ({
                let alpha = self.colors.spec_has_alpha();
                let chunks = spec_encode_body(spec_pixels(pixels@, alpha), alpha);
                match res {
                    Ok(size) => {
                        &&& size == chunks.len()
                        &&& size <= old(output)@.len()
                        &&& final(output)@ == chunks + old(output)@.skip(size as int)
                    },
                    Err(e) => {
                        &&& e == EncodeError::OutputIsTooSmall
                        &&& old(output)@.len() < chunks.len()
                    },
                }
            }),
    {
        let mut run: usize = 0;
        proof {
            lemma_has_alpha();
        }
        if self.colors.has_alpha() {
            let blank = Rgba::new();
            let mut index = [blank;64];
            let mut px_prev = Rgba::new_opaque();
            assert(spec_table(index) =~= spec_first_index(true));
            self.encode_range::<Rgba>(&mut index, &mut px_prev, &mut run, pixels, output)
        } else {
            let blank = Rgb::new();
            let mut index = [blank;64];
            let mut px_prev = Rgb::new_opaque();
            assert(spec_table(index) =~= spec_first_index(false));
            self.encode_range::<Rgb>(&mut index, &mut px_prev, &mut run, pixels, output)
        }
    }

    /// Encode raw RGB or RGBA pixels into a QOI image.
    /// Encoded image is written at the start of `output`; the rest of
    /// `output` is untouched.
    ///
    /// On success this function returns the size of the encoded image.
    /// It fails with `OutputIsTooSmall` if `output` cannot hold more than a
    /// header; else with `NotEnoughPixelData` if `pixels` is shorter than the
    /// image; else with `OutputIsTooSmall` if the encoded image does not fit
    /// in `output`. Bytes of `pixels` after the image are not read.
    pub fn encode(&self, pixels: &[u8], output: &mut [u8]) -> (res: Result<usize, EncodeError>)
        ensures
            final(output)@.len() == old(output)@.len(),
            match res {
                Ok(size) => {
                    let encoded = spec_encode(*self, pixels@.take(self.spec_decoded_size()));
                    &&& pixels@.len() >= self.spec_decoded_size()
                    &&& size == encoded.len()
                    &&& size <= old(output)@.len()
                    &&& final(output)@ == encoded + old(output)@.skip(size as int)
                },
                Err(EncodeError::NotEnoughPixelData) => {
                    &&& old(output)@.len() > 14
                    &&& pixels@.len() < self.spec_decoded_size()
                },
                Err(EncodeError::OutputIsTooSmall) => {
                    ||| old(output)@.len() <= 14
                    ||| {
                        &&& pixels@.len() >= self.spec_decoded_size()
                        &&& old(output)@.len() < spec_encode(
                            *self,
                            pixels@.take(self.spec_decoded_size()),
                        ).len()
                    }
                },
            },
    {
        let capacity = output.len();
        let given = pixels.len();
        if capacity <= QOI_HEADER_SIZE {
            return Err(EncodeError::OutputIsTooSmall);
        }
        put_header(self, output);
        let px_len = match checked_size(self.width, self.height, self.colors.channels(), 0) {
            Some(px_len) => px_len,
            None => {
                return Err(EncodeError::NotEnoughPixelData);
            },
        };
        if given < px_len {
            return Err(EncodeError::NotEnoughPixelData);
        }
        let pixels = slice_subrange(pixels, 0, px_len);
        let ghost alpha = self.colors.spec_has_alpha();
        let ghost chunks = spec_encode_body(spec_pixels(pixels@, alpha), alpha);
        let ghost framed = output@;
        let (_, body) = output.split_at_mut(QOI_HEADER_SIZE);
        let encoded = self.encode_body(pixels, body);
        let size = match encoded {
            Ok(size) => size,
            Err(e) => {
                return Err(e);
            },
        };
        if capacity - QOI_HEADER_SIZE - size < QOI_PADDING {
            return Err(EncodeError::OutputIsTooSmall);
        }
        let ghost filled = output@;
        let marker: [u8; 8] = [0, 0, 0, 0, 0, 0, 0, 1];
        put_chunk(output, QOI_HEADER_SIZE + size, marker.as_slice());
        proof {
            lemma_framed(
                old(output)@,
                framed,
                filled,
                output@,
                spec_header(*self),
                chunks,
                spec_end_marker(),
            );
        }
        Ok(size + QOI_PADDING + QOI_HEADER_SIZE)
    }

    /// Returns maximum size of the `Qoi::encode` output size.
    /// Using smaller slice may cause `Qoi::encode` to return
    /// `Err(EncodeError::OutputIsTooSmall)`.
    #[inline]
    pub fn encoded_size_limit(&self) -> (limit: usize)
        requires
            self.spec_encoded_size_limit() <= usize::MAX,
        ensures
            limit == self.spec_encoded_size_limit(),
    {
        match checked_size(
            self.width,
            self.height,
            self.colors.channels() + 1,
            QOI_HEADER_SIZE + QOI_PADDING,
        ) {
            Some(limit) => limit,
            None => 0,
        }
    }

    /// Encode raw RGB or RGBA pixels into a QOI image in memory.
    /// Encoded image is written into allocated `Vec`.
    ///
    /// On success this function returns `Ok(vec)` with `vec` containing
    /// encoded image. It fails with `NotEnoughPixelData` if `pixels` is
    /// shorter than the image, and with `OutputIsTooSmall` if not even the
    /// size limit of the encoded image fits in `usize`.
    pub fn encode_alloc(&self, pixels: &[u8]) -> (res: Result<Vec<u8>, EncodeError>)
        ensures
            match res {
                Ok(encoded) => {
                    &&& pixels@.len() >= self.spec_decoded_size()
                    &&& encoded@ == spec_encode(*self, pixels@.take(self.spec_decoded_size()))
                },
                Err(EncodeError::NotEnoughPixelData) => pixels@.len() < self.spec_decoded_size(),
                Err(EncodeError::OutputIsTooSmall) => {
                    &&& pixels@.len() >= self.spec_decoded_size()
                    &&& self.spec_encoded_size_limit() > usize::MAX
                },
            },
    {
        let channels = self.colors.channels();
        let given = pixels.len();
        // The pixels are counted before the output is allocated.
        match checked_size(self.width, self.height, channels, 0) {
            Some(px_len) => if given < px_len {
                return Err(EncodeError::NotEnoughPixelData);
            },
            None => {
                return Err(EncodeError::NotEnoughPixelData);
            },
        }
        let limit = match checked_size(
            self.width,
            self.height,
            channels + 1,
            QOI_HEADER_SIZE + QOI_PADDING,
        ) {
            Some(limit) => limit,
            None => {
                return Err(EncodeError::OutputIsTooSmall);
            },
        };
        let mut output = vec![0u8; limit];
        let encoded = self.encode(pixels, output.as_mut_slice());
        match encoded {
            Ok(size) => {
                output.truncate(size);
                Ok(output)
            },
            Err(e) => {
                proof {
                    if pixels@.len() >= self.spec_decoded_size() {
                        lemma_encoded_size_bound(*self, pixels@.take(self.spec_decoded_size()));
                    }
                }
                Err(e)
            },
        }
    }
}

} // verus!
