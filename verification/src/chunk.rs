//! The six chunk encodings and the rules that choose among them.
use vstd::prelude::*;
use crate::pixel::{Color, Var, spec_hash, spec_signed, spec_var};

verus! {

pub const QOI_OP_INDEX: u8 = 0x00;

pub const QOI_OP_DIFF: u8 = 0x40;

pub const QOI_OP_LUMA: u8 = 0x80;

pub const QOI_OP_RUN: u8 = 0xc0;

pub const QOI_OP_RGB: u8 = 0xfe;

pub const QOI_OP_RGBA: u8 = 0xff;

/// Longest run that one RUN chunk can hold. The two lengths above it would
/// share their byte with the RGB and RGBA tags.
pub const QOI_MAX_RUN: usize = 62;

/// Whether a difference fits a DIFF chunk: each channel in `-2..=1`.
pub open spec fn spec_fits_diff(v: Var) -> bool {
    &&& -2 <= spec_signed(v.r) <= 1
    &&& -2 <= spec_signed(v.g) <= 1
    &&& -2 <= spec_signed(v.b) <= 1
}

/// The DIFF chunk of a difference that fits: tag `01`, then the three
/// channels, each biased by 2, in two bits each.
pub open spec fn spec_diff_byte(v: Var) -> u8 {
    (0x40 + (spec_signed(v.r) + 2) * 16 + (spec_signed(v.g) + 2) * 4 + (spec_signed(v.b) + 2)) as u8
}

/// Whether a difference fits a LUMA chunk: green in `-32..=31`, red and blue
/// within `-8..=7` of green.
pub open spec fn spec_fits_luma(v: Var) -> bool {
    &&& -32 <= spec_signed(v.g) <= 31
    &&& -8 <= spec_signed(v.r) - spec_signed(v.g) <= 7
    &&& -8 <= spec_signed(v.b) - spec_signed(v.g) <= 7
}

/// The two bytes of the LUMA chunk of a difference that fits: tag `10` and
/// green biased by 32; then red minus green and blue minus green, each
/// biased by 8, in four bits each.
pub open spec fn spec_luma_bytes(v: Var) -> (u8, u8) {
    (
        (0x80 + (spec_signed(v.g) + 32)) as u8,
        ((spec_signed(v.r) - spec_signed(v.g) + 8) * 16 + (spec_signed(v.b) - spec_signed(v.g)
            + 8)) as u8,
    )
}

/// The RUN chunk for `run` repetitions of the previous pixel, `1..=62`.
pub open spec fn spec_run_byte(run: int) -> u8 {
    (0xc0 + run - 1) as u8
}

/// The chunk that encodes pixel `p` after pixel `prev`, `p != prev`, with the
/// given recent-colors table. The first rule that applies wins: INDEX, DIFF,
/// LUMA, RGB, RGBA.
pub open spec fn spec_chunk(p: Color, prev: Color, index: Seq<Color>) -> Seq<u8> {
    let v = spec_var(p, prev);
    if index[spec_hash(p)] == p {
        seq![spec_hash(p) as u8]
    } else if p.a == prev.a && spec_fits_diff(v) {
        seq![spec_diff_byte(v)]
    } else if p.a == prev.a && spec_fits_luma(v) {
        seq![spec_luma_bytes(v).0, spec_luma_bytes(v).1]
    } else if p.a == prev.a {
        seq![0xfeu8, p.r, p.g, p.b]
    } else {
        seq![0xffu8, p.r, p.g, p.b, p.a]
    }
}

impl Var {
    /// The DIFF chunk of this difference, if it fits one.
    pub open spec fn spec_diff(&self) -> Option<u8> {
        if spec_fits_diff(*self) {
            Some(spec_diff_byte(*self))
        } else {
            None
        }
    }

    /// The LUMA chunk of this difference, if it fits one.
    pub open spec fn spec_luma(&self) -> Option<[u8; 2]> {
        if spec_fits_luma(*self) {
            Some([spec_luma_bytes(*self).0, spec_luma_bytes(*self).1])
        } else {
            None
        }
    }

    /// The DIFF chunk of this difference, or `None` if a channel is outside
    /// `-2..=1`.
    pub fn diff(&self) -> (out: Option<u8>)
        ensures
            out == self.spec_diff(),
    {
        let r = self.r.wrapping_add(2);
        let g = self.g.wrapping_add(2);
        let b = self.b.wrapping_add(2);
        if (r | g | b) <= 3 {
            assert(r <= 3 && g <= 3 && b <= 3 && (0x40u8 | (r << 4) | (g << 2) | b) == 0x40 + r * 16
                + g * 4 + b) by (bit_vector)
                requires
                    (r | g | b) <= 3,
            ;
            Some(QOI_OP_DIFF | (r << 4) | (g << 2) | b)
        } else {
            assert(!(r <= 3 && g <= 3 && b <= 3)) by (bit_vector)
                requires
                    !((r | g | b) <= 3),
            ;
            None
        }
    }

    /// The LUMA chunk of this difference, or `None` if green is outside
    /// `-32..=31` or red or blue is outside `-8..=7` of green.
    pub fn luma(&self) -> (out: Option<[u8; 2]>)
        ensures
            out == self.spec_luma(),
    {
        let r = self.r.wrapping_add(8).wrapping_sub(self.g);
        let g = self.g.wrapping_add(32);
        let b = self.b.wrapping_add(8).wrapping_sub(self.g);
        assert((r | b) <= 0x0f <==> r <= 15 && b <= 15) by (bit_vector);
        if (r | b) <= 0x0f && g <= 0x3f {
            assert((0x80u8 | g) == 0x80 + g && ((r << 4) | b) == r * 16 + b) by (bit_vector)
                requires
                    r <= 15,
                    b <= 15,
                    g <= 0x3f,
            ;
            let out = [QOI_OP_LUMA | g, (r << 4) | b];
            Some(out)
        } else {
            None
        }
    }
}

} // verus!
