//! Pixels of three and four channels, and the arithmetic the codec does on
//! them: wrap-around differences and sums, the recent-colors hash, equality.
use vstd::prelude::*;
use vstd::arithmetic::div_mod::lemma_mod_multiples_vanish;
use vstd::wrapping::u8_specs::{wrapping_add, wrapping_mul, wrapping_sub};

verus! {

/// The value of a pixel: red, green, blue and alpha.
///
/// A three-channel pixel has no alpha of its own; its value has `a == 255`.
pub struct Color {
    pub r: u8,
    pub g: u8,
    pub b: u8,
    pub a: u8,
}

/// Slot of a color in the recent-colors table:
/// `(r * 3 + g * 5 + b * 7 + a * 11) mod 64`.
pub open spec fn spec_hash(c: Color) -> int {
    (c.r * 3 + c.g * 5 + c.b * 7 + c.a * 11) % 64
}

/// Number of bytes of one pixel in a raw buffer.
pub open spec fn spec_channels(alpha: bool) -> int {
    if alpha {
        4
    } else {
        3
    }
}

/// The pixel that starts at byte `at` of a raw buffer.
pub open spec fn spec_read(bytes: Seq<u8>, at: int, alpha: bool) -> Color {
    Color {
        r: bytes[at],
        g: bytes[at + 1],
        b: bytes[at + 2],
        a: if alpha {
            bytes[at + 3]
        } else {
            255
        },
    }
}

/// The bytes of one pixel in a raw buffer.
pub open spec fn spec_write(c: Color, alpha: bool) -> Seq<u8> {
    if alpha {
        seq![c.r, c.g, c.b, c.a]
    } else {
        seq![c.r, c.g, c.b]
    }
}

/// Channel `k` of a color, in the order red, green, blue, alpha.
pub open spec fn spec_channel(c: Color, k: int) -> u8 {
    if k == 0 {
        c.r
    } else if k == 1 {
        c.g
    } else if k == 2 {
        c.b
    } else {
        c.a
    }
}

/// The pixels of a raw buffer, in order. Bytes after the last whole pixel are
/// not part of any pixel.
pub open spec fn spec_pixels(bytes: Seq<u8>, alpha: bool) -> Seq<Color> {
    Seq::new(
        (bytes.len() as int / spec_channels(alpha)) as nat,
        |i: int| spec_read(bytes, i * spec_channels(alpha), alpha),
    )
}

/// The raw buffer that holds the given pixels, in order.
pub open spec fn spec_raw(pixels: Seq<Color>, alpha: bool) -> Seq<u8> {
    Seq::new(
        (pixels.len() * spec_channels(alpha)) as nat,
        |k: int| spec_channel(pixels[k / spec_channels(alpha)], k % spec_channels(alpha)),
    )
}

/// Wrap-around difference between two pixels, channel by channel.
#[derive(Clone, Copy, Debug)]
pub struct Var {
    pub r: u8,
    pub g: u8,
    pub b: u8,
}

/// The wrap-around difference `p - q` of the color channels.
pub open spec fn spec_var(p: Color, q: Color) -> Var {
    Var { r: wrapping_sub(p.r, q.r), g: wrapping_sub(p.g, q.g), b: wrapping_sub(p.b, q.b) }
}

/// The color whose color channels are those of `q` plus `v`, wrapping around;
/// alpha is that of `q`.
pub open spec fn spec_add_var(q: Color, v: Var) -> Color {
    Color { r: wrapping_add(q.r, v.r), g: wrapping_add(q.g, v.g), b: wrapping_add(q.b, v.b), a: q.a }
}

/// A wrap-around difference read as a signed number in `-128..=127`.
pub open spec fn spec_signed(d: u8) -> int {
    if d < 128 {
        d as int
    } else {
        d - 256
    }
}

/// The byte that stands for a signed number modulo 256.
pub open spec fn spec_unsigned(d: int) -> u8 {
    (d % 256) as u8
}

/// A pixel of the codec: three or four channels of eight bits.
///
/// [`Pixel::color`] is the value of a pixel; every operation is stated over
/// it. A type without alpha has the constant alpha 255.
pub trait Pixel: Copy + Eq {
    /// Whether pixels of this type carry an alpha channel.
    const HAS_ALPHA: bool;

    /// The value of this pixel.
    spec fn color(&self) -> Color;

    /// A pixel without an alpha channel is opaque.
    proof fn lemma_opaque(&self)
        ensures
            !Self::HAS_ALPHA ==> self.color().a == 255,
    ;

    /// The pixel of a fresh recent-colors table: every channel it holds is zero.
    fn new() -> (p: Self)
        ensures
            p.color() == (Color { r: 0, g: 0, b: 0, a: if Self::HAS_ALPHA { 0u8 } else { 255u8 } }),
    ;

    /// The pixel that precedes the first pixel of an image: opaque black.
    fn new_opaque() -> (p: Self)
        ensures
            p.color() == (Color { r: 0, g: 0, b: 0, a: 255 }),
    ;

    /// Takes the channels of this pixel from a raw buffer of exactly one pixel.
    fn read(&mut self, bytes: &[u8])
        requires
            bytes@.len() == spec_channels(Self::HAS_ALPHA),
        ensures
            final(self).color() == spec_read(bytes@, 0, Self::HAS_ALPHA),
    ;

    /// Stores the channels of this pixel in a raw buffer of exactly one pixel.
    fn write(&self, bytes: &mut [u8])
        requires
            old(bytes)@.len() == spec_channels(Self::HAS_ALPHA),
        ensures
            final(bytes)@ == spec_write(self.color(), Self::HAS_ALPHA),
    ;

    /// The wrap-around difference of the color channels to those of `prev`.
    fn var(&self, prev: &Self) -> (v: Var)
        ensures
            v == spec_var(self.color(), prev.color()),
    ;

    /// The three color channels.
    fn rgb(&self) -> (out: [u8; 3])
        ensures
            out@ == seq![self.color().r, self.color().g, self.color().b],
    ;

    /// The three color channels and alpha.
    fn rgba(&self) -> (out: [u8; 4])
        ensures
            out@ == seq![self.color().r, self.color().g, self.color().b, self.color().a],
    ;

    fn r(&self) -> (out: u8)
        ensures
            out == self.color().r,
    ;

    fn g(&self) -> (out: u8)
        ensures
            out == self.color().g,
    ;

    fn b(&self) -> (out: u8)
        ensures
            out == self.color().b,
    ;

    fn a(&self) -> (out: u8)
        ensures
            out == self.color().a,
    ;

    fn set_r(&mut self, r: u8)
        ensures
            final(self).color() == (Color { r, ..old(self).color() }),
    ;

    fn set_g(&mut self, g: u8)
        ensures
            final(self).color() == (Color { g, ..old(self).color() }),
    ;

    fn set_b(&mut self, b: u8)
        ensures
            final(self).color() == (Color { b, ..old(self).color() }),
    ;

    /// Sets alpha. A pixel without an alpha channel stays as it is.
    fn set_a(&mut self, a: u8)
        ensures
            final(self).color() == (Color {
                a: if Self::HAS_ALPHA {
                    a
                } else {
                    255u8
                },
                ..old(self).color()
            }),
    ;

    /// Sets the color channels and keeps alpha.
    fn set_rgb(&mut self, r: u8, g: u8, b: u8)
        ensures
            final(self).color() == (Color { r, g, b, a: old(self).color().a }),
    ;

    /// Sets every channel. A pixel without an alpha channel takes the color
    /// channels only.
    fn set_rgba(&mut self, r: u8, g: u8, b: u8, a: u8)
        ensures
            final(self).color() == (Color {
                r,
                g,
                b,
                a: if Self::HAS_ALPHA {
                    a
                } else {
                    255u8
                },
            }),
    ;

    /// Adds to the color channels, wrapping around, and keeps alpha.
    fn add_rgb(&mut self, r: u8, g: u8, b: u8)
        ensures
            final(self).color() == spec_add_var(old(self).color(), Var { r, g, b }),
    ;

    /// Slot of this pixel in the recent-colors table.
    fn hash(&self) -> (h: u8)
        ensures
            h == spec_hash(self.color()),
            h < 64,
    ;

    /// Whether two pixels have the same value.
    fn equal(&self, other: &Self) -> (same: bool)
        ensures
            same == (self.color() == other.color()),
    ;
}

/// A sum of eight-bit terms that wrapped around at 256 at every step agrees
/// modulo 64 with the sum that never wrapped.
proof fn lemma_wrapped_sum_mod_64(
    r: int,
    g: int,
    b: int,
    a: int,
    r3: int,
    g5: int,
    b7: int,
    a11: int,
    left: int,
    right: int,
    sum: int,
)
    requires
        r3 == (r * 3) % 256,
        g5 == (g * 5) % 256,
        b7 == (b * 7) % 256,
        a11 == (a * 11) % 256,
        left == (r3 + g5) % 256,
        right == (b7 + a11) % 256,
        sum == (left + right) % 256,
    ensures
        sum % 64 == (r * 3 + g * 5 + b * 7 + a * 11) % 64,
{
    let wraps = (r * 3) / 256 + (g * 5) / 256 + (b * 7) / 256 + (a * 11) / 256 + (r3 + g5) / 256 + (b7
        + a11) / 256 + (left + right) / 256;
    lemma_mod_multiples_vanish(4 * wraps, sum, 64);
}

/// Wrap-around multiplication in eight bits is multiplication modulo 256.
proof fn lemma_wrapping_mul(x: u8, k: u8)
    ensures
        wrapping_mul(x, k) == (x * k) % 256,
{
}

/// Wrap-around addition in eight bits is addition modulo 256.
proof fn lemma_wrapping_add(x: u8, y: u8)
    ensures
        wrapping_add(x, y) == (x + y) % 256,
{
}

/// The recent-colors slot of four channels, computed in eight bits.
pub(crate) fn hash_channels(r: u8, g: u8, b: u8, a: u8) -> (h: u8)
    ensures
        h == spec_hash(Color { r, g, b, a }),
        h < 64,
{
    let r3 = r.wrapping_mul(3);
    let g5 = g.wrapping_mul(5);
    let b7 = b.wrapping_mul(7);
    let a11 = a.wrapping_mul(11);
    let left = r3.wrapping_add(g5);
    let right = b7.wrapping_add(a11);
    let sum = left.wrapping_add(right);
    let h = sum & 63;
    proof {
        lemma_wrapping_mul(r, 3);
        lemma_wrapping_mul(g, 5);
        lemma_wrapping_mul(b, 7);
        lemma_wrapping_mul(a, 11);
        lemma_wrapping_add(r3, g5);
        lemma_wrapping_add(b7, a11);
        lemma_wrapping_add(left, right);
        lemma_wrapped_sum_mod_64(
            r as int,
            g as int,
            b as int,
            a as int,
            r3 as int,
            g5 as int,
            b7 as int,
            a11 as int,
            left as int,
            right as int,
            sum as int,
        );
        assert(sum & 63 == sum % 64) by (bit_vector);
    }
    h
}

/// Three channel pixel: red, green and blue.
#[derive(Clone, Copy, PartialEq, Eq, Debug)]
pub struct Rgb {
    pub rgb: [u8; 3],
}

impl Pixel for Rgb {
    const HAS_ALPHA: bool = false;

    open spec fn color(&self) -> Color {
        Color { r: self.rgb[0], g: self.rgb[1], b: self.rgb[2], a: 255 }
    }

    proof fn lemma_opaque(&self) {
    }

    #[inline]
    fn new() -> (p: Self) {
        Rgb { rgb: [0, 0, 0] }
    }

    #[inline]
    fn new_opaque() -> (p: Self) {
        Rgb { rgb: [0, 0, 0] }
    }

    #[inline]
    fn read(&mut self, bytes: &[u8]) {
        self.rgb = [bytes[0], bytes[1], bytes[2]];
    }

    #[inline]
    fn write(&self, bytes: &mut [u8]) {
        bytes[0] = self.rgb[0];
        bytes[1] = self.rgb[1];
        bytes[2] = self.rgb[2];
    }

    #[inline]
    fn var(&self, prev: &Self) -> (v: Var) {
        let r = self.rgb[0].wrapping_sub(prev.rgb[0]);
        let g = self.rgb[1].wrapping_sub(prev.rgb[1]);
        let b = self.rgb[2].wrapping_sub(prev.rgb[2]);
        Var { r, g, b }
    }

    #[inline]
    fn rgb(&self) -> (out: [u8; 3]) {
        let out = self.rgb;
        out
    }

    #[inline]
    fn rgba(&self) -> (out: [u8; 4]) {
        let out = [self.rgb[0], self.rgb[1], self.rgb[2], 255];
        out
    }

    #[inline]
    fn r(&self) -> (out: u8) {
        self.rgb[0]
    }

    #[inline]
    fn g(&self) -> (out: u8) {
        self.rgb[1]
    }

    #[inline]
    fn b(&self) -> (out: u8) {
        self.rgb[2]
    }

    #[inline]
    fn a(&self) -> (out: u8) {
        255
    }

    #[inline]
    fn set_r(&mut self, r: u8) {
        self.rgb[0] = r;
    }

    #[inline]
    fn set_g(&mut self, g: u8) {
        self.rgb[1] = g;
    }

    #[inline]
    fn set_b(&mut self, b: u8) {
        self.rgb[2] = b;
    }

    #[inline]
    fn set_a(&mut self, a: u8) {
    }

    #[inline]
    fn set_rgb(&mut self, r: u8, g: u8, b: u8) {
        self.rgb[0] = r;
        self.rgb[1] = g;
        self.rgb[2] = b;
    }

    #[inline]
    fn set_rgba(&mut self, r: u8, g: u8, b: u8, a: u8) {
        self.rgb[0] = r;
        self.rgb[1] = g;
        self.rgb[2] = b;
    }

    #[inline]
    fn add_rgb(&mut self, r: u8, g: u8, b: u8) {
        self.rgb[0] = self.rgb[0].wrapping_add(r);
        self.rgb[1] = self.rgb[1].wrapping_add(g);
        self.rgb[2] = self.rgb[2].wrapping_add(b);
    }

    #[inline]
    fn hash(&self) -> (h: u8) {
        hash_channels(self.rgb[0], self.rgb[1], self.rgb[2], 255)
    }

    #[inline]
    fn equal(&self, other: &Self) -> (same: bool) {
        self.rgb[0] == other.rgb[0] && self.rgb[1] == other.rgb[1] && self.rgb[2] == other.rgb[2]
    }
}

/// Four channel pixel: red, green, blue and alpha.
#[derive(Clone, Copy, PartialEq, Eq, Debug)]
pub struct Rgba {
    pub rgba: [u8; 4],
}

impl Pixel for Rgba {
    const HAS_ALPHA: bool = true;

    open spec fn color(&self) -> Color {
        Color { r: self.rgba[0], g: self.rgba[1], b: self.rgba[2], a: self.rgba[3] }
    }

    proof fn lemma_opaque(&self) {
    }

    #[inline]
    fn new() -> (p: Self) {
        Rgba { rgba: [0, 0, 0, 0] }
    }

    #[inline]
    fn new_opaque() -> (p: Self) {
        Rgba { rgba: [0, 0, 0, 255] }
    }

    #[inline]
    fn read(&mut self, bytes: &[u8]) {
        self.rgba = [bytes[0], bytes[1], bytes[2], bytes[3]];
    }

    #[inline]
    fn write(&self, bytes: &mut [u8]) {
        bytes[0] = self.rgba[0];
        bytes[1] = self.rgba[1];
        bytes[2] = self.rgba[2];
        bytes[3] = self.rgba[3];
    }

    #[inline]
    fn var(&self, prev: &Self) -> (v: Var) {
        let r = self.rgba[0].wrapping_sub(prev.rgba[0]);
        let g = self.rgba[1].wrapping_sub(prev.rgba[1]);
        let b = self.rgba[2].wrapping_sub(prev.rgba[2]);
        Var { r, g, b }
    }

    #[inline]
    fn rgb(&self) -> (out: [u8; 3]) {
        let out = [self.rgba[0], self.rgba[1], self.rgba[2]];
        out
    }

    #[inline]
    fn rgba(&self) -> (out: [u8; 4]) {
        let out = self.rgba;
        out
    }

    #[inline]
    fn r(&self) -> (out: u8) {
        self.rgba[0]
    }

    #[inline]
    fn g(&self) -> (out: u8) {
        self.rgba[1]
    }

    #[inline]
    fn b(&self) -> (out: u8) {
        self.rgba[2]
    }

    #[inline]
    fn a(&self) -> (out: u8) {
        self.rgba[3]
    }

    #[inline]
    fn set_r(&mut self, r: u8) {
        self.rgba[0] = r;
    }

    #[inline]
    fn set_g(&mut self, g: u8) {
        self.rgba[1] = g;
    }

    #[inline]
    fn set_b(&mut self, b: u8) {
        self.rgba[2] = b;
    }

    #[inline]
    fn set_a(&mut self, a: u8) {
        self.rgba[3] = a;
    }

    #[inline]
    fn set_rgb(&mut self, r: u8, g: u8, b: u8) {
        self.rgba = [r, g, b, self.rgba[3]];
    }

    #[inline]
    fn set_rgba(&mut self, r: u8, g: u8, b: u8, a: u8) {
        self.rgba = [r, g, b, a];
    }

    #[inline]
    fn add_rgb(&mut self, r: u8, g: u8, b: u8) {
        self.rgba[0] = self.rgba[0].wrapping_add(r);
        self.rgba[1] = self.rgba[1].wrapping_add(g);
        self.rgba[2] = self.rgba[2].wrapping_add(b);
    }

    #[inline]
    fn hash(&self) -> (h: u8) {
        hash_channels(self.rgba[0], self.rgba[1], self.rgba[2], self.rgba[3])
    }

    #[inline]
    fn equal(&self, other: &Self) -> (same: bool) {
        self.rgba[0] == other.rgba[0] && self.rgba[1] == other.rgba[1] && self.rgba[2]
            == other.rgba[2] && self.rgba[3] == other.rgba[3]
    }
}

/// The values that a recent-colors table holds, slot by slot.
pub open spec fn spec_table<P: Pixel>(index: [P; 64]) -> Seq<Color> {
    Seq::new(64, |i: int| index[i].color())
}

/// Which of the two pixel types carries alpha.
pub proof fn lemma_has_alpha()
    ensures
        Rgba::HAS_ALPHA,
        !Rgb::HAS_ALPHA,
{
}

} // verus!
