use rapid_qoi::{Colors, Qoi};

/// A small generator of repeatable bytes.
struct Noise(u64);

impl Noise {
    fn next(&mut self) -> u32 {
        self.0 = self.0.wrapping_mul(6364136223846793005).wrapping_add(1442695040888963407);
        (self.0 >> 33) as u32
    }
}

/// Pixels that exercise every chunk: repeats, small steps, returns to seen
/// colors, jumps, and changes of alpha.
fn picture(noise: &mut Noise, count: usize, channels: usize) -> Vec<u8> {
    let mut pixels: Vec<u8> = Vec::new();
    let mut px = [0u8, 0, 0, 255];
    let mut seen: Vec<[u8; 4]> = vec![px];
    for _ in 0..count {
        match noise.next() % 8 {
            0 | 1 => {}
            2 => {
                px[0] = px[0].wrapping_add((noise.next() % 4) as u8).wrapping_sub(2);
                px[1] = px[1].wrapping_add((noise.next() % 4) as u8).wrapping_sub(2);
                px[2] = px[2].wrapping_add((noise.next() % 4) as u8).wrapping_sub(2);
            }
            3 => {
                let dg = (noise.next() % 64) as u8;
                px[1] = px[1].wrapping_add(dg).wrapping_sub(32);
                px[0] = px[0]
                    .wrapping_add(dg)
                    .wrapping_sub(32)
                    .wrapping_add((noise.next() % 16) as u8)
                    .wrapping_sub(8);
                px[2] = px[2]
                    .wrapping_add(dg)
                    .wrapping_sub(32)
                    .wrapping_add((noise.next() % 16) as u8)
                    .wrapping_sub(8);
            }
            4 => px = seen[noise.next() as usize % seen.len()],
            5 => {
                px[0] = noise.next() as u8;
                px[1] = noise.next() as u8;
                px[2] = noise.next() as u8;
            }
            6 => px[3] = noise.next() as u8,
            _ => px = [0, 0, 0, if noise.next() % 2 == 0 { 0 } else { 255 }],
        }
        if channels == 3 {
            px[3] = 255;
        }
        seen.push(px);
        pixels.extend_from_slice(&px[..channels]);
    }
    pixels
}

fn round_trip(qoi: Qoi, pixels: &[u8]) {
    let encoded = qoi.encode_alloc(pixels).unwrap();
    assert!(encoded.len() <= qoi.encoded_size_limit());
    assert_eq!(&encoded[encoded.len() - 8..], &[0, 0, 0, 0, 0, 0, 0, 1]);
    assert_eq!(Qoi::decode_header(&encoded), Ok(qoi));
    let (decoded_qoi, decoded) = Qoi::decode_alloc(&encoded).unwrap();
    assert_eq!(decoded_qoi, qoi);
    assert_eq!(decoded, pixels);
}

#[test]
fn round_trip_of_pictures_with_alpha() {
    let mut noise = Noise(1);
    for (width, height) in [(1, 1), (2, 3), (7, 5), (64, 2), (33, 33), (200, 3)] {
        for colors in [Colors::SrgbLinA, Colors::Rgba] {
            let pixels = picture(&mut noise, width * height, 4);
            round_trip(Qoi { width: width as u32, height: height as u32, colors }, &pixels);
        }
    }
}

#[test]
fn round_trip_of_pictures_without_alpha() {
    let mut noise = Noise(2);
    for (width, height) in [(1, 1), (2, 3), (7, 5), (64, 2), (33, 33), (200, 3)] {
        for colors in [Colors::Srgb, Colors::Rgb] {
            let pixels = picture(&mut noise, width * height, 3);
            round_trip(Qoi { width: width as u32, height: height as u32, colors }, &pixels);
        }
    }
}

#[test]
fn round_trip_of_noise() {
    let mut noise = Noise(3);
    for channels in [3usize, 4] {
        let pixels: Vec<u8> = (0..40 * 40 * channels).map(|_| noise.next() as u8).collect();
        let colors = if channels == 4 { Colors::Rgba } else { Colors::Rgb };
        round_trip(Qoi { width: 40, height: 40, colors }, &pixels);
    }
}

#[test]
fn round_trip_of_long_runs() {
    for count in [61usize, 62, 63, 64, 123, 124, 125, 1000] {
        let mut pixels = vec![0u8; count * 3];
        round_trip(Qoi { width: count as u32, height: 1, colors: Colors::Srgb }, &pixels);
        pixels.iter_mut().for_each(|byte| *byte = 77);
        round_trip(Qoi { width: count as u32, height: 1, colors: Colors::Srgb }, &pixels);
        let pixels = vec![200u8; count * 4];
        round_trip(Qoi { width: 1, height: count as u32, colors: Colors::Rgba }, &pixels);
    }
}

#[test]
fn round_trip_of_an_empty_image() {
    round_trip(Qoi { width: 0, height: 0, colors: Colors::Srgb }, &[]);
    round_trip(Qoi { width: 0, height: 17, colors: Colors::Rgba }, &[]);
    round_trip(Qoi { width: 17, height: 0, colors: Colors::SrgbLinA }, &[]);
}

#[test]
fn one_pixel_of_any_value_decodes_to_itself() {
    for value in 0..=255u8 {
        for pixel in [
            [value, 0, 0, 255],
            [0, value, 0, 255],
            [0, 0, value, 255],
            [0, 0, 0, value],
            [value, value, value, value],
            [value, 255 - value, value.wrapping_mul(3), value.wrapping_add(128)],
        ] {
            round_trip(Qoi { width: 1, height: 1, colors: Colors::SrgbLinA }, &pixel);
            round_trip(Qoi { width: 1, height: 1, colors: Colors::Srgb }, &pixel[..3]);
        }
    }
}

#[test]
fn two_pixels_of_any_difference_decode_to_themselves() {
    for first in [0u8, 1, 2, 100, 127, 128, 254, 255] {
        for second in 0..=255u8 {
            let pixels = [first, first, first, second, first, second.wrapping_add(first)];
            round_trip(Qoi { width: 2, height: 1, colors: Colors::Srgb }, &pixels);
            let pixels = [first, 9, first, 255, second, 9, first, 255];
            round_trip(Qoi { width: 2, height: 1, colors: Colors::Rgba }, &pixels);
        }
    }
}

#[test]
fn decode_into_a_slice_agrees_with_decode_alloc() {
    let mut noise = Noise(4);
    let pixels = picture(&mut noise, 50, 4);
    let qoi = Qoi { width: 10, height: 5, colors: Colors::SrgbLinA };
    let mut encoded = vec![0u8; qoi.encoded_size_limit()];
    let size = qoi.encode(&pixels, &mut encoded).unwrap();
    assert_eq!(encoded[..size], qoi.encode_alloc(&pixels).unwrap());
    let mut decoded = vec![0u8; qoi.decoded_size()];
    assert_eq!(Qoi::decode(&encoded[..size], &mut decoded), Ok(qoi));
    assert_eq!(decoded, pixels);
}

#[test]
fn ranges_agree_with_the_whole() {
    let mut noise = Noise(5);
    let pixels = picture(&mut noise, 300, 4);
    let qoi = Qoi { width: 300, height: 1, colors: Colors::Rgba };
    let whole = qoi.encode_alloc(&pixels).unwrap();
    let body = &whole[14..whole.len() - 8];
    // Decoding in three ranges gives what decoding at once gives.
    let mut index = [[0u8; 4]; 64];
    let mut px = [0, 0, 0, 255];
    let mut run = 0usize;
    let mut decoded = vec![0u8; pixels.len()];
    let mut used = 0;
    for part in decoded.chunks_mut(100 * 4) {
        used += Qoi::decode_range::<4>(&mut index, &mut px, &mut run, &body[used..], part).unwrap();
    }
    assert_eq!(used, body.len());
    assert_eq!(decoded, pixels);
}

#[test]
fn qoi_crate_reads_what_we_encode() {
    let mut noise = Noise(6);
    for (width, height) in [(1u32, 1u32), (5, 4), (64, 3), (100, 10)] {
        let pixels = picture(&mut noise, (width * height) as usize, 4);
        let qoi = Qoi { width, height, colors: Colors::SrgbLinA };
        let encoded = qoi.encode_alloc(&pixels).unwrap();
        let (header, decoded) = qoi::decode_to_vec(&encoded).unwrap();
        assert_eq!(header.width, width);
        assert_eq!(header.height, height);
        assert_eq!(decoded, pixels);
    }
}

#[test]
fn we_read_what_the_qoi_crate_writes() {
    let mut noise = Noise(7);
    for (width, height) in [(1u32, 1u32), (5, 4), (64, 3), (100, 10)] {
        for channels in [3usize, 4] {
            let pixels = picture(&mut noise, (width * height) as usize, channels);
            let encoded = qoi::encode_to_vec(&pixels, width, height).unwrap();
            let (qoi, decoded) = Qoi::decode_alloc(&encoded).unwrap();
            assert_eq!(qoi.width, width);
            assert_eq!(qoi.height, height);
            assert_eq!(qoi.colors.channels(), channels);
            assert_eq!(decoded, pixels);
        }
    }
}

#[test]
fn tables_agree_after_every_prefix() {
    let mut noise = Noise(8);
    let pixels = picture(&mut noise, 400, 4);
    let qoi = Qoi { width: 400, height: 1, colors: Colors::Rgba };
    let mut encoder_index = [rapid_qoi::Rgba { rgba: [0; 4] }; 64];
    let mut encoder_prev = rapid_qoi::Rgba { rgba: [0, 0, 0, 255] };
    let mut encoder_run = 0usize;
    let mut decoder_index = [[0u8; 4]; 64];
    let mut decoder_prev = [0, 0, 0, 255];
    let mut decoder_run = 0usize;
    // Encode and decode in step, a few pixels at a time: after each part the
    // decoder has consumed what the encoder wrote and holds the same state.
    for part in pixels.chunks(7 * 4) {
        let mut chunks = vec![0u8; part.len() / 4 * 5];
        let size = qoi
            .encode_range(&mut encoder_index, &mut encoder_prev, &mut encoder_run, part, &mut chunks)
            .unwrap();
        let mut decoded = vec![0u8; part.len()];
        let used = Qoi::decode_range::<4>(
            &mut decoder_index,
            &mut decoder_prev,
            &mut decoder_run,
            &chunks[..size],
            &mut decoded,
        )
        .unwrap();
        assert_eq!(used, size);
        assert_eq!(decoded, part);
        assert_eq!(decoder_prev, encoder_prev.rgba);
        assert_eq!(decoder_run, 0);
        assert_eq!(encoder_run, 0);
        for slot in 0..64 {
            assert_eq!(decoder_index[slot], encoder_index[slot].rgba);
        }
    }
}

#[test]
fn tables_agree_without_alpha() {
    let mut noise = Noise(9);
    let pixels = picture(&mut noise, 300, 3);
    let qoi = Qoi { width: 300, height: 1, colors: Colors::Rgb };
    let mut encoder_index = [rapid_qoi::Rgb { rgb: [0; 3] }; 64];
    let mut encoder_prev = rapid_qoi::Rgb { rgb: [0, 0, 0] };
    let mut encoder_run = 0usize;
    let mut decoder_index = [[0u8; 3]; 64];
    let mut decoder_prev = [0, 0, 0];
    let mut decoder_run = 0usize;
    for part in pixels.chunks(5 * 3) {
        let mut chunks = vec![0u8; part.len() / 3 * 4];
        let size = qoi
            .encode_range(&mut encoder_index, &mut encoder_prev, &mut encoder_run, part, &mut chunks)
            .unwrap();
        let mut decoded = vec![0u8; part.len()];
        let used = Qoi::decode_range::<3>(
            &mut decoder_index,
            &mut decoder_prev,
            &mut decoder_run,
            &chunks[..size],
            &mut decoded,
        )
        .unwrap();
        assert_eq!(used, size);
        assert_eq!(decoded, part);
        assert_eq!(decoder_prev, encoder_prev.rgb);
        for slot in 0..64 {
            assert_eq!(decoder_index[slot], encoder_index[slot].rgb);
        }
    }
}

#[test]
fn no_run_chunk_is_longer_than_62() {
    let qoi = Qoi { width: 1000, height: 1, colors: Colors::Srgb };
    let encoded = qoi.encode_alloc(&vec![0u8; 3000]).unwrap();
    // 1000 == 16 * 62 + 8
    let mut body = vec![0xfdu8; 16];
    body.push(0xc0 | 7);
    assert_eq!(&encoded[14..encoded.len() - 8], &body[..]);
    let qoi = Qoi { width: 1000, height: 1, colors: Colors::Rgba };
    let encoded = qoi.encode_alloc(&[9u8, 9, 9, 9].repeat(1000)).unwrap();
    // The first pixel takes an RGBA chunk; 999 == 16 * 62 + 7
    let mut body = vec![0xff, 9, 9, 9, 9];
    body.extend_from_slice(&[0xfd; 16]);
    body.push(0xc0 | 6);
    assert_eq!(&encoded[14..encoded.len() - 8], &body[..]);
}
