use rapid_qoi::{Colors, DecodeError, EncodeError, Pixel, Rgb, Rgba, Var};

#[test]
fn fresh_pixels() {
    assert_eq!(Rgb::new().rgb, [0, 0, 0]);
    assert_eq!(Rgb::new_opaque().rgb, [0, 0, 0]);
    assert_eq!(Rgba::new().rgba, [0, 0, 0, 0]);
    assert_eq!(Rgba::new_opaque().rgba, [0, 0, 0, 255]);
    assert!(!Rgb::HAS_ALPHA);
    assert!(Rgba::HAS_ALPHA);
}

#[test]
fn read_and_write() {
    let mut px = Rgb::new();
    px.read(&[1, 2, 3]);
    assert_eq!(px.rgb, [1, 2, 3]);
    let mut bytes = [0u8; 3];
    px.write(&mut bytes);
    assert_eq!(bytes, [1, 2, 3]);
    let mut px = Rgba::new();
    px.read(&[1, 2, 3, 4]);
    assert_eq!(px.rgba, [1, 2, 3, 4]);
    let mut bytes = [0u8; 4];
    px.write(&mut bytes);
    assert_eq!(bytes, [1, 2, 3, 4]);
}

#[test]
fn channels_of_a_pixel() {
    let px = Rgb { rgb: [1, 2, 3] };
    assert_eq!((px.r(), px.g(), px.b(), px.a()), (1, 2, 3, 255));
    assert_eq!(px.rgb(), [1, 2, 3]);
    assert_eq!(px.rgba(), [1, 2, 3, 255]);
    let px = Rgba { rgba: [1, 2, 3, 4] };
    assert_eq!((px.r(), px.g(), px.b(), px.a()), (1, 2, 3, 4));
    assert_eq!(px.rgb(), [1, 2, 3]);
    assert_eq!(px.rgba(), [1, 2, 3, 4]);
}

#[test]
fn setters() {
    let mut px = Rgb { rgb: [1, 2, 3] };
    px.set_r(10);
    px.set_g(20);
    px.set_b(30);
    px.set_a(255);
    assert_eq!(px.rgb, [10, 20, 30]);
    px.set_a(7);
    assert_eq!(px.rgb, [10, 20, 30]);
    assert_eq!(px.a(), 255);
    px.set_rgb(4, 5, 6);
    assert_eq!(px.rgb, [4, 5, 6]);
    px.set_rgba(7, 8, 9, 1);
    assert_eq!(px.rgb, [7, 8, 9]);
    let mut px = Rgba { rgba: [1, 2, 3, 4] };
    px.set_r(10);
    px.set_g(20);
    px.set_b(30);
    px.set_a(40);
    assert_eq!(px.rgba, [10, 20, 30, 40]);
    px.set_rgb(4, 5, 6);
    assert_eq!(px.rgba, [4, 5, 6, 40]);
    px.set_rgba(7, 8, 9, 1);
    assert_eq!(px.rgba, [7, 8, 9, 1]);
}

#[test]
fn add_rgb_wraps_around() {
    let mut px = Rgb { rgb: [250, 0, 128] };
    px.add_rgb(7, 255, 128);
    assert_eq!(px.rgb, [1, 255, 0]);
    let mut px = Rgba { rgba: [250, 0, 128, 9] };
    px.add_rgb(7, 255, 128);
    assert_eq!(px.rgba, [1, 255, 0, 9]);
}

#[test]
fn var_wraps_around() {
    let v = Rgb { rgb: [1, 255, 10] }.var(&Rgb { rgb: [255, 0, 10] });
    assert_eq!((v.r, v.g, v.b), (2, 255, 0));
    let v = Rgba { rgba: [10, 13, 0, 1] }.var(&Rgba { rgba: [13, 10, 255, 200] });
    assert_eq!((v.r, v.g, v.b), (253, 3, 1));
}

#[test]
fn hash_is_the_weighted_sum_modulo_64() {
    assert_eq!(Rgb { rgb: [0, 0, 0] }.hash(), 53);
    assert_eq!(Rgb { rgb: [50, 100, 150] }.hash(), 25);
    assert_eq!(Rgb { rgb: [128, 64, 32] }.hash(), 21);
    assert_eq!(Rgba { rgba: [0, 0, 0, 0] }.hash(), 0);
    assert_eq!(Rgba { rgba: [0, 0, 0, 255] }.hash(), 53);
    assert_eq!(Rgba { rgba: [1, 2, 3, 4] }.hash(), 14);
    assert_eq!(Rgba { rgba: [255, 255, 255, 255] }.hash(), ((255 * 26) % 64) as u8);
    for r in [0u32, 1, 85, 86, 200, 255] {
        for g in [0u32, 51, 52, 255] {
            for b in [0u32, 36, 37, 255] {
                for a in [0u32, 23, 24, 255] {
                    let px = Rgba { rgba: [r as u8, g as u8, b as u8, a as u8] };
                    assert_eq!(px.hash() as u32, (r * 3 + g * 5 + b * 7 + a * 11) % 64);
                }
                let px = Rgb { rgb: [r as u8, g as u8, b as u8] };
                assert_eq!(px.hash() as u32, (r * 3 + g * 5 + b * 7 + 255 * 11) % 64);
            }
        }
    }
}

#[test]
fn equal_compares_every_channel() {
    assert!(Rgb { rgb: [1, 2, 3] }.equal(&Rgb { rgb: [1, 2, 3] }));
    assert!(!Rgb { rgb: [1, 2, 3] }.equal(&Rgb { rgb: [0, 2, 3] }));
    assert!(!Rgb { rgb: [1, 2, 3] }.equal(&Rgb { rgb: [1, 0, 3] }));
    assert!(!Rgb { rgb: [1, 2, 3] }.equal(&Rgb { rgb: [1, 2, 0] }));
    assert!(Rgba { rgba: [1, 2, 3, 4] }.equal(&Rgba { rgba: [1, 2, 3, 4] }));
    assert!(!Rgba { rgba: [1, 2, 3, 4] }.equal(&Rgba { rgba: [1, 2, 3, 5] }));
    assert!(!Rgba { rgba: [1, 2, 3, 4] }.equal(&Rgba { rgba: [9, 2, 3, 4] }));
}

#[test]
fn diff_of_a_difference() {
    assert_eq!(Var { r: 0, g: 0, b: 0 }.diff(), Some(0x40 | (2 << 4) | (2 << 2) | 2));
    assert_eq!(Var { r: 1, g: 1, b: 1 }.diff(), Some(0x7f));
    assert_eq!(Var { r: 254, g: 254, b: 254 }.diff(), Some(0x40));
    assert_eq!(Var { r: 254, g: 1, b: 255 }.diff(), Some(0x40 | (0 << 4) | (3 << 2) | 1));
    assert_eq!(Var { r: 2, g: 0, b: 0 }.diff(), None);
    assert_eq!(Var { r: 0, g: 253, b: 0 }.diff(), None);
    assert_eq!(Var { r: 0, g: 0, b: 128 }.diff(), None);
}

#[test]
fn luma_of_a_difference() {
    assert_eq!(Var { r: 0, g: 0, b: 0 }.luma(), Some([0x80 | 32, 0x88]));
    assert_eq!(Var { r: 224, g: 224, b: 224 }.luma(), Some([0x80, 0x88]));
    assert_eq!(Var { r: 31, g: 31, b: 31 }.luma(), Some([0xbf, 0x88]));
    assert_eq!(Var { r: 248, g: 0, b: 7 }.luma(), Some([0xa0, 0x0f]));
    assert_eq!(Var { r: 216, g: 224, b: 231 }.luma(), Some([0x80, 0x0f]));
    assert_eq!(Var { r: 38, g: 31, b: 23 }.luma(), Some([0xbf, 0xf0]));
    assert_eq!(Var { r: 223, g: 223, b: 223 }.luma(), None);
    assert_eq!(Var { r: 32, g: 32, b: 32 }.luma(), None);
    assert_eq!(Var { r: 247, g: 0, b: 0 }.luma(), None);
    assert_eq!(Var { r: 0, g: 0, b: 8 }.luma(), None);
    assert_eq!(Var { r: 128, g: 0, b: 0 }.luma(), None);
}

#[test]
fn color_spaces() {
    assert!(!Colors::Srgb.has_alpha());
    assert!(Colors::SrgbLinA.has_alpha());
    assert!(!Colors::Rgb.has_alpha());
    assert!(Colors::Rgba.has_alpha());
    assert_eq!(Colors::Srgb.channels(), 3);
    assert_eq!(Colors::SrgbLinA.channels(), 4);
    assert_eq!(Colors::Rgb.channels(), 3);
    assert_eq!(Colors::Rgba.channels(), 4);
}

#[test]
fn errors_describe_themselves() {
    assert_eq!(
        EncodeError::NotEnoughPixelData.to_string(),
        "Pixels buffer is too small for image"
    );
    assert_eq!(
        EncodeError::OutputIsTooSmall.to_string(),
        "Output buffer is too small to fit encoded image"
    );
    assert_eq!(
        DecodeError::NotEnoughData.to_string(),
        "Buffer does not contain enough encoded data"
    );
    assert_eq!(
        DecodeError::InvalidMagic.to_string(),
        "Encoded header contains invalid magic value"
    );
    assert_eq!(
        DecodeError::InvalidChannelsValue.to_string(),
        "Encoded header contains invalud channels number. Must be 3 or 4"
    );
    assert_eq!(
        DecodeError::InvalidColorSpaceValue.to_string(),
        "Encoded header contains invalud color space value. Must be 0 or 1"
    );
    assert_eq!(
        DecodeError::OutputIsTooSmall.to_string(),
        "Output buffer is too small to fit decoded image"
    );
}
