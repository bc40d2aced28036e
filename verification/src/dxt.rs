//! The DXT block codec: per-block decode and encode of the DXT1, DXT1-DE,
//! DXT3 and DXT5 surface formats, with the 5-6-5 color quantizer, the
//! exhaustive two-endpoint color search, and the DXT5 alpha-table solver.

use vstd::prelude::*;

use vstd::slice::{slice_subrange, slice_to_vec};

use crate::bytes::{le16_at, le32_at, lemma_le16_at_subrange, lemma_le32_at_subrange, push_u16,
    push_u32, push_u64, spec_zero_bytes, u16_le_bytes, u32_le_bytes, u64_le_bytes};
use crate::consts::{
    DDT_FORMAT_DXT1, DDT_FORMAT_DXT1DE, DDT_FORMAT_DXT3, DDT_FORMAT_DXT5, DDT_USAGE_BUMP,
};

verus! {

/// An 8-8-8 color.
#[derive(Clone, Copy, Debug, PartialEq, Eq, Structural)]
pub struct Rgb {
    pub r: u8,
    pub g: u8,
    pub b: u8,
}

/// One surface of a texture container: its dimensions, its place in the
/// container, and its raw (possibly block-compressed) bytes.
pub struct DxtImage {
    pub width: u32,
    pub height: u32,
    pub offset: u32,
    pub length: u32,
    pub raw_data: Vec<u8>,
}

/// The mathematical image of a [`DxtImage`].
#[verifier::ext_equal]
pub ghost struct DxtImageSpec {
    pub width: u32,
    pub height: u32,
    pub offset: u32,
    pub length: u32,
    pub raw_data: Seq<u8>,
}

impl View for DxtImage {
    type V = DxtImageSpec;

    open spec fn view(&self) -> DxtImageSpec {
        DxtImageSpec {
            width: self.width,
            height: self.height,
            offset: self.offset,
            length: self.length,
            raw_data: self.raw_data@,
        }
    }
}

/// The two format codes that decode as DXT1.
pub open spec fn spec_is_dxt1(format: u8) -> bool {
    format == DDT_FORMAT_DXT1 || format == DDT_FORMAT_DXT1DE
}

/// A format the DXT block codec handles.
pub open spec fn spec_is_dxt(format: u8) -> bool {
    spec_is_dxt1(format) || format == DDT_FORMAT_DXT3 || format == DDT_FORMAT_DXT5
}

/// The red and alpha output channels exchange places for bump maps in DXT5.
pub open spec fn spec_bump_swap(usage: u8, format: u8) -> bool {
    usage & DDT_USAGE_BUMP == DDT_USAGE_BUMP && format == DDT_FORMAT_DXT5
}

/// A five-bit channel expanded to eight bits the way the block decoder does
/// it.
pub open spec fn spec_expand5(v: u16) -> u8 {
    (((v * 255 + 16) / 32 + (v * 255 + 16)) / 32) as u8
}

/// A six-bit channel expanded to eight bits the way the block decoder does
/// it.
pub open spec fn spec_expand6(v: u16) -> u8 {
    (((v * 255 + 32) / 64 + (v * 255 + 32)) / 64) as u8
}

/// A 5-6-5 color expanded to 8-8-8 by the block decoder's precise expansion.
pub open spec fn spec_rgb888(c: u16) -> Rgb {
    Rgb {
        r: spec_expand5(c >> 11),
        g: spec_expand6((c & 0x07E0) >> 5),
        b: spec_expand5(c & 0x001F),
    }
}

/// A 5-6-5 color expanded to 8-8-8 by the quantizer's linear scaling.
pub open spec fn spec_enc565_decode(c: u16) -> Rgb {
    Rgb {
        r: (((c >> 11) & 0x1F) * 0xFF / 0x1F) as u8,
        g: (((c >> 5) & 0x3F) * 0xFF / 0x3F) as u8,
        b: ((c & 0x1F) * 0xFF / 0x1F) as u8,
    }
}

/// An 8-8-8 color rounded to its nearest 5-6-5 code.
pub open spec fn spec_enc565_encode(rgb: Rgb) -> u16 {
    ((((rgb.r * 0x1F + 0x7E) / 0xFF) as u16) << 11) | ((((rgb.g * 0x3F + 0x7E) / 0xFF) as u16)
        << 5) | ((rgb.b * 0x1F + 0x7E) / 0xFF) as u16
}

/// The squared distance between two colors.
pub open spec fn spec_diff(a: Rgb, b: Rgb) -> int {
    (a.r - b.r) * (a.r - b.r) + (a.g - b.g) * (a.g - b.g) + (a.b - b.b) * (a.b - b.b)
}

impl DxtImage {
    /// Converts a 5-6-5 color to its 8-8-8 expansion, channel by channel.
    pub fn rgb565_to_rgb888(color: u16, r: &mut u8, g: &mut u8, b: &mut u8)
        ensures
            *final(r) == spec_rgb888(color).r,
            *final(g) == spec_rgb888(color).g,
            *final(b) == spec_rgb888(color).b,
    {
        proof {
            assert(color >> 11 <= 0x1F && (color & 0x07E0) >> 5 <= 0x3F && color & 0x001F <= 0x1F)
                by (bit_vector);
        }
        let mut temp = (color >> 11) * 255 + 16;
        *r = ((temp / 32 + temp) / 32) as u8;
        temp = ((color & 0x07E0) >> 5) * 255 + 32;
        *g = ((temp / 64 + temp) / 64) as u8;
        temp = (color & 0x001F) * 255 + 16;
        *b = ((temp / 32 + temp) / 32) as u8;
    }

    /// Unpacks a 5-6-5 color into 8-8-8 by linear scaling.
    pub fn enc565_decode(value: u16) -> (rgb: Rgb)
        ensures
            rgb == spec_enc565_decode(value),
    {
        let red = (value >> 11) & 0x1F;
        let green = (value >> 5) & 0x3F;
        let blue = value & 0x1F;
        proof {
            assert((value >> 11) & 0x1F <= 0x1F && (value >> 5) & 0x3F <= 0x3F && value & 0x1F
                <= 0x1F) by (bit_vector);
        }
        Rgb { r: (red * 0xFF / 0x1F) as u8, g: (green * 0xFF / 0x3F) as u8, b: (blue * 0xFF
            / 0x1F) as u8 }
    }

    /// Rounds an 8-8-8 color to its nearest 5-6-5 code.
    pub fn enc565_encode(rgb: Rgb) -> (c: u16)
        ensures
            c == spec_enc565_encode(rgb),
    {
        let red = (rgb.r as u16 * 0x1F + 0x7E) / 0xFF;
        let green = (rgb.g as u16 * 0x3F + 0x7E) / 0xFF;
        let blue = (rgb.b as u16 * 0x1F + 0x7E) / 0xFF;
        (red << 11) | (green << 5) | blue
    }

    /// The square of a difference of channels.
    pub fn square(a: i32) -> (r: i32)
        requires
            -0x8000 <= a <= 0x8000,
        ensures
            r == a * a,
    {
        proof {
            assert(0 <= a * a <= 0x4000_0000) by (nonlinear_arith)
                requires
                    -0x8000 <= a <= 0x8000,
            ;
        }
        a * a
    }

    /// The squared distance between two colors.
    pub fn diff(a: Rgb, b: Rgb) -> (r: i32)
        ensures
            r == spec_diff(a, b),
    {
        let dr = a.r as i32 - b.r as i32;
        let dg = a.g as i32 - b.g as i32;
        let db = a.b as i32 - b.b as i32;
        proof {
            assert(0 <= dr * dr <= 0xFE01 && 0 <= dg * dg <= 0xFE01 && 0 <= db * db <= 0xFE01) by (
            nonlinear_arith)
                requires
                    -255 <= dr <= 255,
                    -255 <= dg <= 255,
                    -255 <= db <= 255,
            ;
        }
        DxtImage::square(dr) + DxtImage::square(dg) + DxtImage::square(db)
    }

    /// Bytes a 4x4 block occupies before encoding: 3 channels per texel for
    /// DXT1, 4 otherwise.
    pub fn decoded_bytes_per_block(format: u8) -> (r: usize)
        ensures
            r == spec_decoded_bytes_per_block(format),
    {
        if format == DDT_FORMAT_DXT1 || format == DDT_FORMAT_DXT1DE {
            48
        } else {
            64
        }
    }

    /// Bytes a 4x4 block occupies after encoding: 8 for DXT1, 16 otherwise.
    pub fn encoded_bytes_per_block(format: u8) -> (r: usize)
        ensures
            r == spec_encoded_bytes_per_block(format),
    {
        if format == DDT_FORMAT_DXT1 || format == DDT_FORMAT_DXT1DE {
            8
        } else {
            16
        }
    }

    /// Bytes one row of blocks occupies before encoding.
    pub fn scanline_bytes(width_blocks: u32, format: u8) -> (r: u64)
        ensures
            r == spec_decoded_bytes_per_block(format) * width_blocks,
    {
        let d = DxtImage::decoded_bytes_per_block(format);
        assert(d == 48 || d == 64);
        d as u64 * width_blocks as u64
    }

    /// The DXT5 interpolation table for two alpha endpoints: the endpoints,
    /// then six interpolants when `alpha0 > alpha1`, else four interpolants
    /// and the constants 0 and 255.
    pub fn alpha_table_dxt5(alpha0: u8, alpha1: u8) -> (table: Vec<u8>)
        ensures
            table@ == spec_alpha_table_dxt5(alpha0, alpha1),
    {
        let a0 = alpha0 as u16;
        let a1 = alpha1 as u16;
        let mut table: Vec<u8> = Vec::new();
        table.push(alpha0);
        table.push(alpha1);
        if alpha0 > alpha1 {
            table.push(((6 * a0 + 1 * a1) / 7) as u8);
            table.push(((5 * a0 + 2 * a1) / 7) as u8);
            table.push(((4 * a0 + 3 * a1) / 7) as u8);
            table.push(((3 * a0 + 4 * a1) / 7) as u8);
            table.push(((2 * a0 + 5 * a1) / 7) as u8);
            table.push(((1 * a0 + 6 * a1) / 7) as u8);
        } else {
            table.push(((4 * a0 + 1 * a1) / 5) as u8);
            table.push(((3 * a0 + 2 * a1) / 5) as u8);
            table.push(((2 * a0 + 3 * a1) / 5) as u8);
            table.push(((1 * a0 + 4 * a1) / 5) as u8);
            table.push(0);
            table.push(0xFF);
        }
        assert(table@ =~= spec_alpha_table_dxt5(alpha0, alpha1));
        table
    }
}

/// Bytes a 4x4 block occupies before encoding.
pub open spec fn spec_decoded_bytes_per_block(format: u8) -> int {
    if spec_is_dxt1(format) {
        48
    } else {
        64
    }
}

/// Bytes a 4x4 block occupies after encoding.
pub open spec fn spec_encoded_bytes_per_block(format: u8) -> int {
    if spec_is_dxt1(format) {
        8
    } else {
        16
    }
}

/// The DXT5 alpha interpolation table for two endpoints.
pub open spec fn spec_alpha_table_dxt5(a0: u8, a1: u8) -> Seq<u8> {
    if a0 > a1 {
        seq![
            a0,
            a1,
            ((6 * a0 + 1 * a1) / 7) as u8,
            ((5 * a0 + 2 * a1) / 7) as u8,
            ((4 * a0 + 3 * a1) / 7) as u8,
            ((3 * a0 + 4 * a1) / 7) as u8,
            ((2 * a0 + 5 * a1) / 7) as u8,
            ((1 * a0 + 6 * a1) / 7) as u8,
        ]
    } else {
        seq![
            a0,
            a1,
            ((4 * a0 + 1 * a1) / 5) as u8,
            ((3 * a0 + 2 * a1) / 5) as u8,
            ((2 * a0 + 3 * a1) / 5) as u8,
            ((1 * a0 + 4 * a1) / 5) as u8,
            0u8,
            0xFFu8,
        ]
    }
}

/// Quantizing an 8-8-8 color through 5-6-5 and back.
pub open spec fn spec_quantize565(rgb: Rgb) -> Rgb {
    spec_enc565_decode(spec_enc565_encode(rgb))
}

/// Every 5-6-5 code survives a round trip through the quantizer: decoding to
/// 8-8-8 and re-encoding gives the code back.
pub proof fn lemma_enc565_round_trip(c: u16)
    ensures
        spec_enc565_encode(spec_enc565_decode(c)) == c,
{
    let v1 = (c >> 11) & 0x1F;
    let v2 = (c >> 5) & 0x3F;
    let v3 = c & 0x1F;
    assert(v1 <= 0x1F && v2 <= 0x3F && v3 <= 0x1F) by (bit_vector)
        requires
            v1 == (c >> 11) & 0x1F,
            v2 == (c >> 5) & 0x3F,
            v3 == c & 0x1F,
    ;
    assert((v1 * 0xFF / 0x1F * 0x1F + 0x7E) / 0xFF == v1 && v1 * 0xFF / 0x1F <= 0xFF) by (
    bit_vector)
        requires
            v1 <= 0x1F,
    ;
    assert((v2 * 0xFF / 0x3F * 0x3F + 0x7E) / 0xFF == v2 && v2 * 0xFF / 0x3F <= 0xFF) by (
    bit_vector)
        requires
            v2 <= 0x3F,
    ;
    assert((v3 * 0xFF / 0x1F * 0x1F + 0x7E) / 0xFF == v3 && v3 * 0xFF / 0x1F <= 0xFF) by (
    bit_vector)
        requires
            v3 <= 0x1F,
    ;
    assert((v1 << 11) | (v2 << 5) | v3 == c) by (bit_vector)
        requires
            v1 == (c >> 11) & 0x1F,
            v2 == (c >> 5) & 0x3F,
            v3 == c & 0x1F,
    ;
    let d = spec_enc565_decode(c);
    assert(d.r == v1 * 0xFF / 0x1F && d.g == v2 * 0xFF / 0x3F && d.b == v3 * 0xFF / 0x1F);
    assert(((d.r * 0x1F + 0x7E) / 0xFF) as u16 == v1);
    assert(((d.g * 0x3F + 0x7E) / 0xFF) as u16 == v2);
    assert(((d.b * 0x1F + 0x7E) / 0xFF) as u16 == v3);
}

/// The DXT5 alpha table starts with the two endpoints; when the first is not
/// above the second, its last two entries are the constants 0 and 255.
pub proof fn lemma_alpha_table_ends(a0: u8, a1: u8)
    ensures
        spec_alpha_table_dxt5(a0, a1).len() == 8,
        spec_alpha_table_dxt5(a0, a1)[0] == a0,
        spec_alpha_table_dxt5(a0, a1)[1] == a1,
        a0 <= a1 ==> spec_alpha_table_dxt5(a0, a1)[6] == 0 && spec_alpha_table_dxt5(a0, a1)[7]
            == 255,
{
}

/// When the first endpoint is above the second, the six interpolants descend
/// from it to the second and stay weakly between them; with a gap of at least
/// six they are strictly decreasing and strictly between the endpoints.
pub proof fn lemma_alpha_table_monotone(a0: u8, a1: u8)
    requires
        a0 > a1,
    ensures
        forall|i: int|
            2 <= i < 8 ==> a1 <= #[trigger] spec_alpha_table_dxt5(a0, a1)[i] < a0,
        forall|i: int|
            2 <= i < 7 ==> #[trigger] spec_alpha_table_dxt5(a0, a1)[i] >= spec_alpha_table_dxt5(
                a0,
                a1,
            )[i + 1],
        a0 - a1 >= 6 ==> forall|i: int|
            2 <= i < 7 ==> #[trigger] spec_alpha_table_dxt5(a0, a1)[i] > spec_alpha_table_dxt5(
                a0,
                a1,
            )[i + 1],
        a0 - a1 >= 6 ==> forall|i: int|
            2 <= i < 7 ==> a1 < #[trigger] spec_alpha_table_dxt5(a0, a1)[i] < a0,
{
    let t = spec_alpha_table_dxt5(a0, a1);
    let g = a0 - a1;
    assert forall|i: int| 2 <= i < 8 implies a1 <= #[trigger] t[i] < a0 by {
        assert(t[i] == (((8 - i) * a0 + (i - 1) * a1) / 7) as u8);
        assert(((8 - i) * a0 + (i - 1) * a1) / 7 == a1 + (8 - i) * g / 7) by (nonlinear_arith)
            requires
                2 <= i < 8,
                g == a0 - a1,
        ;
        assert((8 - i) * g / 7 < g) by (nonlinear_arith)
            requires
                2 <= i < 8,
                g >= 1,
        ;
        assert((8 - i) * g / 7 >= 0) by (nonlinear_arith)
            requires
                2 <= i < 8,
                g >= 1,
        ;
    }
    assert forall|i: int| 2 <= i < 7 implies #[trigger] t[i] >= t[i + 1] by {
        lemma_alpha_interp_step(a0, a1, i);
    }
    if g >= 6 {
        assert forall|i: int| 2 <= i < 7 implies #[trigger] t[i] > t[i + 1] by {
            lemma_alpha_interp_step(a0, a1, i);
        }
        assert forall|i: int| 2 <= i < 7 implies a1 < #[trigger] t[i] < a0 by {
            assert(t[i] == (((8 - i) * a0 + (i - 1) * a1) / 7) as u8);
            assert(((8 - i) * a0 + (i - 1) * a1) / 7 == a1 + (8 - i) * g / 7) by (nonlinear_arith)
                requires
                    2 <= i < 8,
                    g == a0 - a1,
            ;
            assert(0 < (8 - i) * g / 7 < g) by (nonlinear_arith)
                requires
                    2 <= i < 7,
                    g >= 6,
            ;
        }
    }
}

/// One step between adjacent interpolants of the seven-step table.
proof fn lemma_alpha_interp_step(a0: u8, a1: u8, i: int)
    requires
        a0 > a1,
        2 <= i < 7,
    ensures
        spec_alpha_table_dxt5(a0, a1)[i] >= spec_alpha_table_dxt5(a0, a1)[i + 1],
        a0 - a1 >= 6 ==> spec_alpha_table_dxt5(a0, a1)[i] > spec_alpha_table_dxt5(a0, a1)[i + 1],
{
    let g = a0 - a1;
    let t = spec_alpha_table_dxt5(a0, a1);
    assert(t[i] == (((8 - i) * a0 + (i - 1) * a1) / 7) as u8);
    assert(t[i + 1] == (((8 - (i + 1)) * a0 + (i + 1 - 1) * a1) / 7) as u8);
    assert(((8 - i) * a0 + (i - 1) * a1) / 7 == a1 + (8 - i) * g / 7) by (nonlinear_arith)
        requires
            2 <= i < 8,
            g == a0 - a1,
    ;
    assert(((8 - (i + 1)) * a0 + (i + 1 - 1) * a1) / 7 == a1 + (7 - i) * g / 7) by (
    nonlinear_arith)
        requires
            2 <= i < 7,
            g == a0 - a1,
    ;
    assert((8 - i) * g / 7 >= (7 - i) * g / 7) by (nonlinear_arith)
        requires
            2 <= i < 7,
            g >= 1,
    ;
    assert(g >= 6 ==> (8 - i) * g / 7 > (7 - i) * g / 7) by (nonlinear_arith)
        requires
            2 <= i < 7,
            g >= 1,
    ;
    assert(0 <= a1 + (7 - i) * g / 7 <= 255) by (nonlinear_arith)
        requires
            2 <= i < 7,
            g == a0 - a1,
            0 <= a1,
            a0 <= 255,
            g >= 1,
    ;
    assert(0 <= a1 + (8 - i) * g / 7 <= 255) by (nonlinear_arith)
        requires
            2 <= i < 8,
            g == a0 - a1,
            0 <= a1,
            a0 <= 255,
            g >= 1,
    ;
}

/// The midpoint of two channels.
pub open spec fn spec_avg(a: Rgb, b: Rgb) -> Rgb {
    Rgb {
        r: ((a.r + b.r) / 2) as u8,
        g: ((a.g + b.g) / 2) as u8,
        b: ((a.b + b.b) / 2) as u8,
    }
}

/// Two thirds of the first color, one third of the second, as the decoder
/// rounds it.
pub open spec fn spec_third_hi(a: Rgb, b: Rgb) -> Rgb {
    Rgb {
        r: ((2 * a.r + b.r) / 3) as u8,
        g: ((2 * a.g + b.g) / 3) as u8,
        b: ((2 * a.b + b.b) / 3) as u8,
    }
}

/// One third of the first color, two thirds of the second, as the decoder
/// rounds it.
pub open spec fn spec_third_lo(a: Rgb, b: Rgb) -> Rgb {
    Rgb {
        r: ((a.r + 2 * b.r) / 3) as u8,
        g: ((a.g + 2 * b.g) / 3) as u8,
        b: ((a.b + 2 * b.b) / 3) as u8,
    }
}

/// The two-bit palette index of texel `(bx, by)` in a color block.
pub open spec fn spec_texel_index(lookup: u32, bx: int, by: int) -> u32 {
    (lookup >> ((2 * (4 * by + bx)) as u32)) & 0x03
}

/// The DXT3 alpha of texel `k`: its nibble replicated into both halves.
pub open spec fn spec_dxt3_alpha(alpha: Seq<u8>, k: int) -> u8 {
    if k % 2 == 0 {
        (alpha[k / 2] & 0x0F) | ((alpha[k / 2] & 0x0F) << 4)
    } else {
        (alpha[k / 2] & 0xF0) | ((alpha[k / 2] & 0xF0) >> 4)
    }
}

/// The 48-bit DXT5 alpha index mask: bytes two to seven, little-endian.
pub open spec fn spec_dxt5_alpha_mask(alpha: Seq<u8>) -> u64 {
    (alpha[2] + alpha[3] * 0x100 + alpha[4] * 0x1_0000 + alpha[5] * 0x100_0000 + alpha[6]
        * 0x1_0000_0000 + alpha[7] * 0x100_0000_0000) as u64
}

/// The DXT5 alpha of texel `k`: the endpoints for indices zero and one, then
/// seven-step interpolation when the first endpoint is larger, else five-step
/// interpolation with the constants 0 and 255.
pub open spec fn spec_dxt5_alpha(alpha: Seq<u8>, k: int) -> u8 {
    let a0 = alpha[0];
    let a1 = alpha[1];
    let idx = (spec_dxt5_alpha_mask(alpha) >> ((3 * k) as u64)) & 0x07;
    if idx == 0 {
        a0
    } else if idx == 1 {
        a1
    } else if a0 > a1 {
        (((8 - idx) * a0 + (idx - 1) * a1) / 7) as u8
    } else if idx == 6 {
        0
    } else if idx == 7 {
        255
    } else {
        (((6 - idx) * a0 + (idx - 1) * a1) / 5) as u8
    }
}

/// The color and alpha of texel `(bx, by)` of one block, before any output
/// channel swap.
pub open spec fn spec_texel_rgba(
    format: u8,
    alpha: Seq<u8>,
    c0: u16,
    c1: u16,
    lookup: u32,
    bx: int,
    by: int,
) -> (Rgb, u8) {
    let rgb0 = spec_rgb888(c0);
    let rgb1 = spec_rgb888(c1);
    let idx = spec_texel_index(lookup, bx, by);
    let a = if spec_is_dxt1(format) {
        255u8
    } else if format == DDT_FORMAT_DXT3 {
        spec_dxt3_alpha(alpha, 4 * by + bx)
    } else {
        spec_dxt5_alpha(alpha, 4 * by + bx)
    };
    if idx == 0 {
        (rgb0, a)
    } else if idx == 1 {
        (rgb1, a)
    } else if idx == 2 {
        if spec_is_dxt1(format) && !(c0 > c1) {
            (spec_avg(rgb0, rgb1), a)
        } else {
            (spec_third_hi(rgb0, rgb1), a)
        }
    } else {
        if spec_is_dxt1(format) {
            if c0 > c1 {
                (spec_third_lo(rgb0, rgb1), a)
            } else {
                (Rgb { r: 0, g: 0, b: 0 }, 0u8)
            }
        } else {
            (spec_third_lo(rgb0, rgb1), a)
        }
    }
}

/// The four output bytes of texel `(bx, by)`: blue, green, then red and alpha,
/// which exchange places for bump-mapped DXT5.
pub open spec fn spec_block_texel(
    format: u8,
    usage: u8,
    alpha: Seq<u8>,
    c0: u16,
    c1: u16,
    lookup: u32,
    bx: int,
    by: int,
) -> Seq<u8> {
    let (rgb, a) = spec_texel_rgba(format, alpha, c0, c1, lookup, bx, by);
    if spec_bump_swap(usage, format) {
        seq![rgb.b, rgb.g, a, rgb.r]
    } else {
        seq![rgb.b, rgb.g, rgb.r, a]
    }
}

/// Decodes the DXT5 alpha of texel `k` of one block.
#[verifier::rlimit(50)]
fn decode_dxt5_alpha(alpha: &[u8], k: u32) -> (a: u8)
    requires
        alpha@.len() == 8,
        k < 16,
    ensures
        a == spec_dxt5_alpha(alpha@, k as int),
{
    let alpha_mask: u64 = alpha[2] as u64 + alpha[3] as u64 * 0x100 + alpha[4] as u64 * 0x1_0000
        + alpha[5] as u64 * 0x100_0000 + alpha[6] as u64 * 0x1_0000_0000 + alpha[7] as u64
        * 0x100_0000_0000;
    let alpha_index: u64 = (alpha_mask >> ((3 * k) as u64)) & 0x07;
    proof {
        assert((alpha_mask >> ((3 * k) as u64)) & 0x07 < 8) by (bit_vector);
    }
    let a0 = alpha[0];
    let a1 = alpha[1];
    let i: u32 = alpha_index as u32;
    if alpha_index == 0 {
        a0
    } else if alpha_index == 1 {
        a1
    } else if a0 > a1 {
        proof {
            assert((8 - i) * (a0 as u32) + (i - 1) * (a1 as u32) <= 1785 && ((8 - i) * (a0 as u32)
                + (i - 1) * (a1 as u32)) / 7 <= 255) by (nonlinear_arith)
                requires
                    2 <= i <= 7,
                    a0 <= 255,
                    a1 <= 255,
            ;
        }
        (((8 - i) * a0 as u32 + (i - 1) * a1 as u32) / 7) as u8
    } else if alpha_index == 6 {
        0
    } else if alpha_index == 7 {
        0xFF
    } else {
        proof {
            assert((6 - i) * (a0 as u32) + (i - 1) * (a1 as u32) <= 1275 && ((6 - i) * (a0 as u32)
                + (i - 1) * (a1 as u32)) / 5 <= 255) by (nonlinear_arith)
                requires
                    2 <= i <= 5,
                    a0 <= 255,
                    a1 <= 255,
            ;
        }
        (((6 - i) * a0 as u32 + (i - 1) * a1 as u32) / 5) as u8
    }
}

/// Decodes the alpha of texel `k` of one block: constant for DXT1, a nibble
/// for DXT3, the interpolation table for DXT5.
fn decode_texel_alpha(format: u8, alpha: &[u8], k: u32) -> (a: u8)
    requires
        spec_is_dxt(format),
        alpha@.len() == 8,
        k < 16,
    ensures
        a == (if spec_is_dxt1(format) {
            255u8
        } else if format == DDT_FORMAT_DXT3 {
            spec_dxt3_alpha(alpha@, k as int)
        } else {
            spec_dxt5_alpha(alpha@, k as int)
        }),
{
    if format == DDT_FORMAT_DXT1 || format == DDT_FORMAT_DXT1DE {
        255
    } else if format == DDT_FORMAT_DXT3 {
        let byte = alpha[(k / 2) as usize];
        if k % 2 == 0 {
            (byte & 0x0F) | ((byte & 0x0F) << 4)
        } else {
            (byte & 0xF0) | ((byte & 0xF0) >> 4)
        }
    } else {
        decode_dxt5_alpha(alpha, k)
    }
}

/// Decodes the color and alpha of one texel of one block.
#[verifier::rlimit(50)]
fn decode_texel(
    format: u8,
    alpha: &[u8],
    c0: u16,
    c1: u16,
    lookup_table: u32,
    bx: u32,
    by: u32,
) -> (t: (Rgb, u8))
    requires
        spec_is_dxt(format),
        alpha@.len() == 8,
        bx < 4,
        by < 4,
    ensures
        t == spec_texel_rgba(format, alpha@, c0, c1, lookup_table, bx as int, by as int),
{
    let mut r0: u8 = 0;
    let mut g0: u8 = 0;
    let mut b0: u8 = 0;
    let mut r1: u8 = 0;
    let mut g1: u8 = 0;
    let mut b1: u8 = 0;
    DxtImage::rgb565_to_rgb888(c0, &mut r0, &mut g0, &mut b0);
    DxtImage::rgb565_to_rgb888(c1, &mut r1, &mut g1, &mut b1);

    let k: u32 = 4 * by + bx;
    let a = decode_texel_alpha(format, alpha, k);

    let index = (lookup_table >> (2 * k)) & 0x03;
    proof {
        assert((lookup_table >> (2 * k)) & 0x03 < 4) by (bit_vector);
    }
    let rgb: Rgb;
    let mut out_a = a;
    if index == 0 {
        rgb = Rgb { r: r0, g: g0, b: b0 };
    } else if index == 1 {
        rgb = Rgb { r: r1, g: g1, b: b1 };
    } else if index == 2 {
        if (format == DDT_FORMAT_DXT1 || format == DDT_FORMAT_DXT1DE) && !(c0 > c1) {
            rgb = Rgb {
                r: ((r0 as u16 + r1 as u16) / 2) as u8,
                g: ((g0 as u16 + g1 as u16) / 2) as u8,
                b: ((b0 as u16 + b1 as u16) / 2) as u8,
            };
        } else {
            rgb = Rgb {
                r: ((2 * r0 as u16 + r1 as u16) / 3) as u8,
                g: ((2 * g0 as u16 + g1 as u16) / 3) as u8,
                b: ((2 * b0 as u16 + b1 as u16) / 3) as u8,
            };
        }
    } else {
        if format == DDT_FORMAT_DXT1 || format == DDT_FORMAT_DXT1DE {
            if c0 > c1 {
                rgb = Rgb {
                    r: ((r0 as u16 + 2 * r1 as u16) / 3) as u8,
                    g: ((g0 as u16 + 2 * g1 as u16) / 3) as u8,
                    b: ((b0 as u16 + 2 * b1 as u16) / 3) as u8,
                };
            } else {
                rgb = Rgb { r: 0, g: 0, b: 0 };
                out_a = 0;
            }
        } else {
            rgb = Rgb {
                r: ((r0 as u16 + 2 * r1 as u16) / 3) as u8,
                g: ((g0 as u16 + 2 * g1 as u16) / 3) as u8,
                b: ((b0 as u16 + 2 * b1 as u16) / 3) as u8,
            };
        }
    }
    (rgb, out_a)
}

/// Whether byte offset `o` of the decoded image lies in block `(x, y)`.
pub open spec fn spec_offset_in_block(o: int, x: int, y: int, width: int) -> bool {
    let p = o / 4;
    4 * x <= p % width < 4 * x + 4 && 4 * y <= p / width < 4 * y + 4
}

/// The row-major position of byte offset `o`'s texel within its block.
pub open spec fn spec_texel_pos(o: int, x: int, y: int, width: int) -> int {
    4 * ((o / 4) / width - 4 * y) + ((o / 4) % width - 4 * x)
}

/// The decoded byte that block `(x, y)` places at offset `o`.
pub open spec fn spec_block_byte(
    format: u8,
    usage: u8,
    alpha: Seq<u8>,
    c0: u16,
    c1: u16,
    lookup: u32,
    x: int,
    y: int,
    width: int,
    o: int,
) -> u8 {
    spec_block_texel(
        format,
        usage,
        alpha,
        c0,
        c1,
        lookup,
        (o / 4) % width - 4 * x,
        (o / 4) / width - 4 * y,
    )[o % 4]
}

/// `cur` is `orig` with the first `t` texels of block `(x, y)` decoded into
/// place and everything else untouched.
pub open spec fn spec_block_partial(
    orig: Seq<u8>,
    cur: Seq<u8>,
    format: u8,
    usage: u8,
    alpha: Seq<u8>,
    c0: u16,
    c1: u16,
    lookup: u32,
    x: int,
    y: int,
    width: int,
    t: int,
) -> bool {
    &&& cur.len() == orig.len()
    &&& forall|o: int|
        0 <= o < orig.len() ==> #[trigger] cur[o] == (if spec_offset_in_block(o, x, y, width)
            && spec_texel_pos(o, x, y, width) < t {
            spec_block_byte(format, usage, alpha, c0, c1, lookup, x, y, width, o)
        } else {
            orig[o]
        })
}

/// Division by the image width recovers a pixel's coordinates.
proof fn lemma_pixel_decompose(width: int, px: int, py: int)
    requires
        0 <= px < width,
        0 <= py,
    ensures
        (py * width + px) % width == px,
        (py * width + px) / width == py,
{
    assert((py * width + px) % width == px && (py * width + px) / width == py) by (
    nonlinear_arith)
        requires
            0 <= px < width,
            0 <= py,
    ;
}

/// A pixel index below `width * height` lies in a row below `height`.
proof fn lemma_pixel_compose(width: int, height: int, p: int)
    requires
        width > 0,
        0 <= p < width * height,
    ensures
        p == (p / width) * width + p % width,
        0 <= p % width < width,
        0 <= p / width < height,
{
    assert(p == (p / width) * width + p % width && 0 <= p % width < width && 0 <= p / width
        < height) by (nonlinear_arith)
        requires
            width > 0,
            0 <= p < width * height,
    ;
}

impl DxtImage {
    /// Decodes one 4x4 block into its place in the output image, skipping
    /// texels that fall past the right or bottom edge of the surface.
    #[verifier::loop_isolation(false)]
    #[verifier::rlimit(100)]
    pub fn decomprerss_dxt_block(
        format: u8,
        usage: u8,
        alpha: &[u8],
        c0: u16,
        c1: u16,
        lookup_table: u32,
        x: u32,
        y: u32,
        data: &mut Vec<u8>,
        width: u32,
        height: u32,
    )
        requires
            spec_is_dxt(format),
            alpha@.len() == 8,
            old(data)@.len() == width * height * 4,
            width * height * 4 <= u32::MAX,
        ensures
            spec_block_partial(
                old(data)@,
                final(data)@,
                format,
                usage,
                alpha@,
                c0,
                c1,
                lookup_table,
                x as int,
                y as int,
                width as int,
                16,
            ),
    {
        let ghost orig = data@;
        let ghost xi = x as int;
        let ghost yi = y as int;
        let ghost w = width as int;
        let mut by: u32 = 0;
        while by < 4
            invariant
                by <= 4,
                data@.len() == orig.len(),
                spec_block_partial(
                    orig,
                    data@,
                    format,
                    usage,
                    alpha@,
                    c0,
                    c1,
                    lookup_table,
                    xi,
                    yi,
                    w,
                    4 * by as int,
                ),
            decreases 4 - by,
        {
            let mut bx: u32 = 0;
            while bx < 4
                invariant
                    by < 4,
                    bx <= 4,
                    data@.len() == orig.len(),
                    spec_block_partial(
                        orig,
                        data@,
                        format,
                        usage,
                        alpha@,
                        c0,
                        c1,
                        lookup_table,
                        xi,
                        yi,
                        w,
                        4 * by as int + bx as int,
                    ),
                decreases 4 - bx,
            {
                let ghost t = 4 * by as int + bx as int;
                let ghost pre = data@;
                let px64: u64 = 4 * x as u64 + bx as u64;
                let py64: u64 = 4 * y as u64 + by as u64;
                if px64 < width as u64 && py64 < height as u64 {
                    let px: u32 = px64 as u32;
                    let py: u32 = py64 as u32;
                    let texel = decode_texel(format, alpha, c0, c1, lookup_table, bx, by);
                    let rgb = texel.0;
                    let a = texel.1;
                    proof {
                        assert(py * width + px < width * height) by (nonlinear_arith)
                            requires
                                px < width,
                                py < height,
                        ;
                        assert((py * width + px) * 4 + 3 < width * height * 4) by (
                        nonlinear_arith)
                            requires
                                py * width + px < width * height,
                        ;
                    }
                    let p: u32 = py * width + px;
                    let off: usize = (p * 4) as usize;
                    let bump = usage & DDT_USAGE_BUMP == DDT_USAGE_BUMP && format
                        == DDT_FORMAT_DXT5;
                    data[off] = rgb.b;
                    data[off + 1] = rgb.g;
                    if bump {
                        data[off + 2] = a;
                        data[off + 3] = rgb.r;
                    } else {
                        data[off + 2] = rgb.r;
                        data[off + 3] = a;
                    }
                    proof {
                        lemma_pixel_decompose(w, px as int, py as int);
                        let pi = p as int;
                        assert forall|o: int| 0 <= o < orig.len() implies #[trigger] data@[o] == (
                        if spec_offset_in_block(o, xi, yi, w) && spec_texel_pos(o, xi, yi, w) < t
                            + 1 {
                            spec_block_byte(
                                format,
                                usage,
                                alpha@,
                                c0,
                                c1,
                                lookup_table,
                                xi,
                                yi,
                                w,
                                o,
                            )
                        } else {
                            orig[o]
                        }) by {
                            if 4 * pi <= o < 4 * pi + 4 {
                                assert(o / 4 == pi && o % 4 == o - 4 * pi);
                                assert(spec_texel_pos(o, xi, yi, w) == t);
                            } else {
                                assert(data@[o] == pre[o]);
                                if spec_offset_in_block(o, xi, yi, w) && spec_texel_pos(
                                    o,
                                    xi,
                                    yi,
                                    w,
                                ) == t {
                                    let p2 = o / 4;
                                    lemma_pixel_compose(w, height as int, p2);
                                    assert(p2 % w == px && p2 / w == py);
                                    assert(p2 == pi);
                                    assert(false);
                                }
                            }
                        }
                    }
                } else {
                    proof {
                        assert forall|o: int|
                            0 <= o < orig.len() && spec_offset_in_block(o, xi, yi, w)
                                && spec_texel_pos(o, xi, yi, w) == t implies false by {
                            let p2 = o / 4;
                            lemma_pixel_compose(w, height as int, p2);
                            assert(p2 % w == 4 * xi + bx && p2 / w == 4 * yi + by);
                        }
                    }
                }
                bx = bx + 1;
            }
            by = by + 1;
        }
    }
}

/// Blocks per row of a surface.
pub open spec fn spec_blocks_x(width: int) -> int {
    (width + 3) / 4
}

/// Rows of blocks of a surface.
pub open spec fn spec_blocks_y(height: int) -> int {
    (height + 3) / 4
}

/// The eight alpha bytes handed to the block decoder: the head of the block
/// for DXT3 and DXT5, zero for the formats without an alpha plane.
pub open spec fn spec_block_alpha(block: Seq<u8>, format: u8) -> Seq<u8> {
    if spec_is_dxt1(format) {
        spec_zero_bytes(8)
    } else {
        block.subrange(0, 8)
    }
}

/// The byte position of the color half of a block: after the alpha plane for
/// DXT3 and DXT5, at the head for DXT1.
pub open spec fn spec_color_pos(format: u8) -> int {
    if spec_is_dxt1(format) {
        0
    } else {
        8
    }
}

/// Byte `o` of the image that decoding a whole surface produces.
pub open spec fn spec_decompressed_byte(
    raw: Seq<u8>,
    format: u8,
    usage: u8,
    width: int,
    o: int,
) -> u8 {
    let p = o / 4;
    let bx0 = (p % width) / 4;
    let by0 = (p / width) / 4;
    let ebpb = spec_encoded_bytes_per_block(format);
    let bi = by0 * spec_blocks_x(width) + bx0;
    let block = raw.subrange(bi * ebpb, (bi + 1) * ebpb);
    let cpos = spec_color_pos(format);
    spec_block_byte(
        format,
        usage,
        spec_block_alpha(block, format),
        le16_at(block, cpos),
        le16_at(block, cpos + 2),
        le32_at(block, cpos + 4),
        bx0,
        by0,
        width,
        o,
    )
}

/// The image that decoding a whole surface produces: four bytes per texel,
/// row-major, each texel decoded from its block.
pub open spec fn spec_decompressed(
    raw: Seq<u8>,
    format: u8,
    usage: u8,
    width: int,
    height: int,
) -> Seq<u8> {
    Seq::new(
        (width * height * 4) as nat,
        |o: int| spec_decompressed_byte(raw, format, usage, width, o),
    )
}

impl DxtImage {
    /// Decodes this surface's block-compressed bytes into a four-channel
    /// image; nothing when the surface holds fewer bytes than its dimensions
    /// promise.
    #[verifier::loop_isolation(false)]
    #[verifier::rlimit(100)]
    pub fn decompress(&self, format: u8, usage: u8) -> (r: Option<Vec<u8>>)
        requires
            spec_is_dxt(format),
            self.width * self.height * 4 <= u32::MAX,
            self.width <= u32::MAX - 3,
            self.height <= u32::MAX - 3,
        ensures
            r is Some <==> self.raw_data@.len() >= spec_blocks_x(self.width as int) * spec_blocks_y(
                self.height as int,
            ) * spec_encoded_bytes_per_block(format),
            r is Some ==> r.unwrap()@ == spec_decompressed(
                self.raw_data@,
                format,
                usage,
                self.width as int,
                self.height as int,
            ),
    {
        let width = self.width;
        let height = self.height;
        let ghost w = width as int;
        let ghost h = height as int;
        let raw = self.raw_data.as_slice();
        let block_count_x: u32 = (width + 3) / 4;
        let block_count_y: u32 = (height + 3) / 4;
        let ebpb: usize = DxtImage::encoded_bytes_per_block(format);
        if width == 0 || height == 0 {
            proof {
                assert(spec_blocks_x(w) * spec_blocks_y(h) * spec_encoded_bytes_per_block(format)
                    == 0 && w * h * 4 == 0) by (nonlinear_arith)
                    requires
                        w == 0 || h == 0,
                        0 <= w <= u32::MAX - 3,
                        0 <= h <= u32::MAX - 3,
                ;
                assert(spec_decompressed(self.raw_data@, format, usage, w, h) =~= Seq::<
                    u8,
                >::empty());
            }
            return Some(Vec::new());
        }
        proof {
            assert(spec_blocks_x(w) <= w && spec_blocks_y(h) <= h && spec_blocks_x(w)
                * spec_blocks_y(h) <= w * h && spec_blocks_x(w) * spec_blocks_y(h)
                * spec_encoded_bytes_per_block(format) <= 16 * (w * h)) by (nonlinear_arith)
                requires
                    1 <= w,
                    1 <= h,
                    spec_encoded_bytes_per_block(format) <= 16,
            ;
        }
        let needed: u64 = block_count_x as u64 * block_count_y as u64 * ebpb as u64;
        proof {
            assert(block_count_x as u64 * block_count_y as u64 * ebpb as u64 == spec_blocks_x(w)
                * spec_blocks_y(h) * spec_encoded_bytes_per_block(format)) by (nonlinear_arith)
                requires
                    block_count_x == spec_blocks_x(w),
                    block_count_y == spec_blocks_y(h),
                    ebpb == spec_encoded_bytes_per_block(format),
            ;
        }
        if (raw.len() as u64) < needed {
            return None;
        }
        let size: u32 = width * height * 4;
        let mut image: Vec<u8> = crate::bytes::zero_bytes(size as usize);
        let ghost target = spec_decompressed(self.raw_data@, format, usage, w, h);
        let mut y: u32 = 0;
        while y < block_count_y
            invariant
                y <= block_count_y,
                image@.len() == size,
                forall|o: int|
                    0 <= o < size ==> #[trigger] image@[o] == (if spec_block_of(o, w) < y as int
                        * block_count_x {
                        target[o]
                    } else {
                        0u8
                    }),
            decreases block_count_y - y,
        {
            let mut x: u32 = 0;
            while x < block_count_x
                invariant
                    y < block_count_y,
                    x <= block_count_x,
                    image@.len() == size,
                    forall|o: int|
                        0 <= o < size ==> #[trigger] image@[o] == (if spec_block_of(o, w)
                            < y as int * block_count_x + x as int {
                            target[o]
                        } else {
                            0u8
                        }),
                decreases block_count_x - x,
            {
                let ghost bi = y as int * block_count_x + x as int;
                proof {
                    assert(0 <= bi && (bi + 1) <= block_count_x * block_count_y && bi * ebpb + ebpb
                        == (bi + 1) * ebpb && (bi + 1) * ebpb <= block_count_x * block_count_y
                        * ebpb && 0 <= bi * ebpb) by (nonlinear_arith)
                        requires
                            x < block_count_x,
                            y < block_count_y,
                            bi == y as int * block_count_x + x as int,
                            ebpb > 0,
                    ;
                }
                let pos: usize = ((y as u64 * block_count_x as u64 + x as u64) * ebpb as u64)
                    as usize;
                let zeros: Vec<u8>;
                let alpha: &[u8];
                let cpos: usize;
                if format == DDT_FORMAT_DXT3 || format == DDT_FORMAT_DXT5 {
                    alpha = slice_subrange(raw, pos, pos + 8);
                    cpos = pos + 8;
                    zeros = Vec::new();
                } else {
                    zeros = crate::bytes::zero_bytes(8);
                    alpha = zeros.as_slice();
                    cpos = pos;
                }
                let c0 = crate::bytes::read_u16(raw, cpos);
                let c1 = crate::bytes::read_u16(raw, cpos + 2);
                let lookup = crate::bytes::read_u32(raw, cpos + 4);
                let ghost pre = image@;
                DxtImage::decomprerss_dxt_block(
                    format,
                    usage,
                    alpha,
                    c0,
                    c1,
                    lookup,
                    x,
                    y,
                    &mut image,
                    width,
                    height,
                );
                proof {
                    let ebpbi = ebpb as int;
                    let block = self.raw_data@.subrange(bi * ebpbi, (bi + 1) * ebpbi);
                    lemma_le16_at_subrange(self.raw_data@, bi * ebpbi, (bi + 1) * ebpbi,
                        spec_color_pos(format));
                    lemma_le16_at_subrange(self.raw_data@, bi * ebpbi, (bi + 1) * ebpbi,
                        spec_color_pos(format) + 2);
                    lemma_le32_at_subrange(self.raw_data@, bi * ebpbi, (bi + 1) * ebpbi,
                        spec_color_pos(format) + 4);
                    assert(c0 == le16_at(block, spec_color_pos(format)));
                    assert(c1 == le16_at(block, spec_color_pos(format) + 2));
                    assert(lookup == le32_at(block, spec_color_pos(format) + 4));
                    assert(alpha@ =~= spec_block_alpha(block, format));
                    assert forall|o: int| 0 <= o < size implies #[trigger] image@[o] == (if
                        spec_block_of(o, w) < bi + 1 {
                        target[o]
                    } else {
                        0u8
                    }) by {
                        let p = o / 4;
                        lemma_pixel_compose(w, h, p);
                        let px = p % w;
                        let py = p / w;
                        assert(0 <= px / 4 < block_count_x && 0 <= py / 4 < block_count_y) by (
                        nonlinear_arith)
                            requires
                                0 <= px < w,
                                0 <= py < h,
                                block_count_x == (w + 3) / 4,
                                block_count_y == (h + 3) / 4,
                        ;
                        if spec_block_of(o, w) == bi {
                            assert(py / 4 == y && px / 4 == x) by (nonlinear_arith)
                                requires
                                    (py / 4) * block_count_x + px / 4 == y * block_count_x + x,
                                    0 <= px / 4 < block_count_x,
                                    0 <= py / 4 < block_count_y,
                                    0 <= x < block_count_x,
                                    0 <= y < block_count_y,
                            ;
                            assert(spec_offset_in_block(o, x as int, y as int, w));
                            assert(image@[o] == spec_block_byte(format, usage, alpha@, c0, c1,
                                lookup, x as int, y as int, w, o));
                            assert(target[o] == spec_decompressed_byte(self.raw_data@, format,
                                usage, w, o));
                        } else {
                            if spec_offset_in_block(o, x as int, y as int, w) {
                                assert(px / 4 == x && py / 4 == y) by (nonlinear_arith)
                                    requires
                                        4 * x <= px < 4 * x + 4,
                                        4 * y <= py < 4 * y + 4,
                                ;
                                assert(false);
                            }
                            assert(image@[o] == pre[o]);
                        }
                    }
                }
                x = x + 1;
            }
            proof {
                assert(y as int * block_count_x + block_count_x == (y + 1) as int
                    * block_count_x) by (nonlinear_arith);
            }
            y = y + 1;
        }
        proof {
            assert forall|o: int| 0 <= o < size implies spec_block_of(o, w) < block_count_y as int
                * block_count_x by {
                let p = o / 4;
                lemma_pixel_compose(w, h, p);
                assert(0 <= (p % w) / 4 < block_count_x && 0 <= (p / w) / 4 < block_count_y) by (
                nonlinear_arith)
                    requires
                        0 <= p % w < w,
                        0 <= p / w < h,
                        block_count_x == (w + 3) / 4,
                        block_count_y == (h + 3) / 4,
                ;
                assert(((p / w) / 4) * block_count_x + (p % w) / 4 < block_count_y as int
                    * block_count_x) by (nonlinear_arith)
                    requires
                        0 <= (p % w) / 4 < block_count_x,
                        0 <= (p / w) / 4 < block_count_y,
                ;
            }
            assert(image@ =~= target);
        }
        Some(image)
    }
}

/// The row-major index of the block that byte offset `o` falls in.
pub open spec fn spec_block_of(o: int, width: int) -> int {
    let p = o / 4;
    ((p / width) / 4) * spec_blocks_x(width) + (p % width) / 4
}

/// The sixteen encoder targets of one decoded block, gathered back to front
/// as the encoder reverses them.
pub open spec fn spec_targets(source: Seq<u8>) -> Seq<Rgb> {
    let stride = source.len() / 16;
    Seq::new(
        16,
        |j: int|
            Rgb {
                r: source[stride * (15 - j)],
                g: source[stride * (15 - j) + 1],
                b: source[stride * (15 - j) + 2],
            },
    )
}

/// Consecutive duplicates removed, keeping one of each run.
pub open spec fn spec_dedup(s: Seq<Rgb>) -> Seq<Rgb>
    decreases s.len(),
{
    if s.len() == 0 {
        Seq::empty()
    } else {
        let rest = spec_dedup(s.drop_last());
        if rest.len() > 0 && rest.last() == s.last() {
            rest
        } else {
            rest.push(s.last())
        }
    }
}

/// The encoder's color pool: every target quantized through 5-6-5, with
/// adjacent duplicates removed.
pub open spec fn spec_colorspace(targets: Seq<Rgb>) -> Seq<Rgb> {
    spec_dedup(targets.map_values(|t: Rgb| spec_quantize565(t)))
}

/// The target farthest from `reference`, the last such on ties, starting the
/// fold at `best`.
pub open spec fn spec_far_from(targets: Seq<Rgb>, reference: Rgb, i: int, best: Rgb) -> Rgb
    decreases targets.len() - i,
{
    if i < 0 || i >= targets.len() {
        best
    } else {
        spec_far_from(
            targets,
            reference,
            i + 1,
            if spec_diff(targets[i], reference) >= spec_diff(best, reference) {
                targets[i]
            } else {
                best
            },
        )
    }
}

/// One channel scaled away from the reference by five halves, truncating
/// toward zero and wrapping to eight bits, as the flat-block extrapolation
/// does.
pub open spec fn spec_extrap_channel(t: u8, r: u8) -> u8 {
    if t >= r {
        ((r + (t - r) * 5 / 2) % 256) as u8
    } else {
        (((r + 1280) - (r - t) * 5 / 2) % 256) as u8
    }
}

/// The flat-block extrapolation applied to every channel.
pub open spec fn spec_extrap(t: Rgb, r: Rgb) -> Rgb {
    Rgb {
        r: spec_extrap_channel(t.r, r.r),
        g: spec_extrap_channel(t.g, r.g),
        b: spec_extrap_channel(t.b, r.b),
    }
}

/// The midpoint of two channels, rounded up, as the encoder's three-color
/// palette has it.
pub open spec fn spec_enc_avg(a: Rgb, b: Rgb) -> Rgb {
    Rgb {
        r: ((a.r + b.r + 1) / 2) as u8,
        g: ((a.g + b.g + 1) / 2) as u8,
        b: ((a.b + b.b + 1) / 2) as u8,
    }
}

/// Two thirds of the first color and one third of the second, rounded as the
/// encoder's four-color palette has it.
pub open spec fn spec_enc_third_hi(a: Rgb, b: Rgb) -> Rgb {
    Rgb {
        r: ((2 * a.r + b.r + 1) / 3) as u8,
        g: ((2 * a.g + b.g + 1) / 3) as u8,
        b: ((2 * a.b + b.b + 1) / 3) as u8,
    }
}

/// One third of the first color and two thirds of the second, rounded as the
/// encoder's four-color palette has it.
pub open spec fn spec_enc_third_lo(a: Rgb, b: Rgb) -> Rgb {
    Rgb {
        r: ((a.r + 2 * b.r + 1) / 3) as u8,
        g: ((a.g + 2 * b.g + 1) / 3) as u8,
        b: ((a.b + 2 * b.b + 1) / 3) as u8,
    }
}

/// A candidate of the endpoint search: the four palette entries, the mode,
/// and the summed error.
#[verifier::ext_equal]
pub ghost struct SearchState {
    pub p0: Rgb,
    pub p1: Rgb,
    pub p2: Rgb,
    pub p3: Rgb,
    pub use0: bool,
    pub err: int,
}

/// The third palette entry of a candidate pair under a mode.
pub open spec fn spec_pal2(c0: Rgb, c1: Rgb, use0: bool) -> Rgb {
    if use0 {
        spec_enc_avg(c0, c1)
    } else {
        spec_enc_third_hi(c0, c1)
    }
}

/// The fourth palette entry of a candidate pair under a mode: transparent
/// black when the mode reserves it.
pub open spec fn spec_pal3(c0: Rgb, c1: Rgb, use0: bool) -> Rgb {
    if use0 {
        Rgb { r: 0, g: 0, b: 0 }
    } else {
        spec_enc_third_lo(c0, c1)
    }
}

/// The least squared distance from a target to the four palette entries.
pub open spec fn spec_min4(p0: Rgb, p1: Rgb, p2: Rgb, p3: Rgb, t: Rgb) -> int {
    let d0 = spec_diff(p0, t);
    let d1 = spec_diff(p1, t);
    let d2 = spec_diff(p2, t);
    let d3 = spec_diff(p3, t);
    if d0 <= d1 && d0 <= d2 && d0 <= d3 {
        d0
    } else if d1 <= d2 && d1 <= d3 {
        d1
    } else if d2 <= d3 {
        d2
    } else {
        d3
    }
}

/// The index of the first palette entry nearest to a target.
pub open spec fn spec_nearest_idx(p0: Rgb, p1: Rgb, p2: Rgb, p3: Rgb, t: Rgb) -> u32 {
    let d0 = spec_diff(p0, t);
    let d1 = spec_diff(p1, t);
    let d2 = spec_diff(p2, t);
    let d3 = spec_diff(p3, t);
    if d0 <= d1 && d0 <= d2 && d0 <= d3 {
        0
    } else if d1 <= d2 && d1 <= d3 {
        1
    } else if d2 <= d3 {
        2
    } else {
        3
    }
}

/// The summed least distance of the first `k` targets to a palette.
pub open spec fn spec_total_err(p0: Rgb, p1: Rgb, p2: Rgb, p3: Rgb, ts: Seq<Rgb>, k: int) -> int
    decreases k,
{
    if k <= 0 {
        0
    } else {
        spec_total_err(p0, p1, p2, p3, ts, k - 1) + spec_min4(p0, p1, p2, p3, ts[k - 1])
    }
}

/// The candidate built from one ordered pair of pool colors and one mode.
pub open spec fn spec_candidate(c0: Rgb, c1: Rgb, use0: bool, ts: Seq<Rgb>) -> SearchState {
    let p2 = spec_pal2(c0, c1, use0);
    let p3 = spec_pal3(c0, c1, use0);
    SearchState {
        p0: c0,
        p1: c1,
        p2,
        p3,
        use0,
        err: spec_total_err(c0, c1, p2, p3, ts, 16),
    }
}

/// The endpoint search from position `(i, j, m)` on: every ordered pair of
/// pool colors in both modes, keeping the first strict improvement and
/// stopping early once the kept error falls under four.
pub open spec fn spec_search_from(
    cs: Seq<Rgb>,
    ts: Seq<Rgb>,
    i: int,
    j: int,
    m: int,
    best: SearchState,
) -> SearchState
    decreases cs.len() - i, i - j, 2 - m,
{
    if i < 0 || j < 0 || j > i || m < 0 || m > 2 {
        best
    } else if i >= cs.len() {
        best
    } else if j >= i {
        spec_search_from(cs, ts, i + 1, 0, 0, best)
    } else if m >= 2 {
        spec_search_from(cs, ts, i, j + 1, 0, best)
    } else {
        let cand = spec_candidate(cs[i], cs[j], m == 1, ts);
        if cand.err < best.err {
            if cand.err < 4 {
                cand
            } else {
                spec_search_from(cs, ts, i, j, m + 1, cand)
            }
        } else {
            spec_search_from(cs, ts, i, j, m + 1, best)
        }
    }
}

/// The search's starting state: an all-black palette with the largest error.
pub open spec fn spec_search_init() -> SearchState {
    SearchState {
        p0: Rgb { r: 0, g: 0, b: 0 },
        p1: Rgb { r: 0, g: 0, b: 0 },
        p2: Rgb { r: 0, g: 0, b: 0 },
        p3: Rgb { r: 0, g: 0, b: 0 },
        use0: false,
        err: 0xFFFF_FFFF,
    }
}

/// The two-bit indices of the first `k` targets against a palette, packed by
/// shifting earlier targets toward the high bits.
pub open spec fn spec_pack_indices(p0: Rgb, p1: Rgb, p2: Rgb, p3: Rgb, ts: Seq<Rgb>, k: int) -> u32
    decreases k,
{
    if k <= 0 {
        0u32
    } else {
        (spec_pack_indices(p0, p1, p2, p3, ts, k - 1) << 2) | spec_nearest_idx(
            p0,
            p1,
            p2,
            p3,
            ts[k - 1],
        )
    }
}

/// The eight bytes of a color block for a chosen candidate: endpoints encoded
/// to 5-6-5 and swapped so the mode survives decoding, with the indices
/// reworked to match.
pub open spec fn spec_color_block_bytes(best: SearchState, ts: Seq<Rgb>) -> Seq<u8> {
    let color0 = spec_enc565_encode(best.p0);
    let color1 = spec_enc565_encode(best.p1);
    let idxs = spec_pack_indices(best.p0, best.p1, best.p2, best.p3, ts, 16);
    if color0 > color1 {
        if best.use0 {
            u16_le_bytes(color1) + u16_le_bytes(color0) + u32_le_bytes(
                idxs ^ (((idxs & 0xAAAA_AAAA) >> 1) ^ 0x5555_5555),
            )
        } else {
            u16_le_bytes(color0) + u16_le_bytes(color1) + u32_le_bytes(idxs)
        }
    } else {
        if !best.use0 {
            u16_le_bytes(color1) + u16_le_bytes(color0) + u32_le_bytes(idxs ^ 0x5555_5555)
        } else {
            u16_le_bytes(color0) + u16_le_bytes(color1) + u32_le_bytes(idxs)
        }
    }
}

/// The color block that the endpoint search settles on for a pool and the
/// targets.
pub open spec fn spec_search_result_bytes(cs: Seq<Rgb>, ts: Seq<Rgb>) -> Seq<u8> {
    spec_color_block_bytes(spec_search_from(cs, ts, 0, 0, 0, spec_search_init()), ts)
}

/// The eight bytes the color encoder emits for one block of targets: a flat
/// block with equal endpoints and zero indices when a single pool color
/// absorbs the extrapolation, else the exhaustive search's choice.
pub open spec fn spec_encode_dxt_colors(source: Seq<u8>) -> Seq<u8> {
    let ts = spec_targets(source);
    let cs = spec_colorspace(ts);
    if cs.len() == 1 {
        let reference = cs[0];
        let far = spec_far_from(ts, reference, 1, ts[0]);
        let encoded = spec_enc565_encode(spec_extrap(far, reference));
        if spec_enc565_decode(encoded) == reference {
            u16_le_bytes(encoded) + u16_le_bytes(encoded) + u32_le_bytes(0)
        } else {
            spec_search_result_bytes(cs.push(spec_enc565_decode(encoded)), ts)
        }
    } else {
        spec_search_result_bytes(cs, ts)
    }
}

/// Gathers the sixteen targets of one decoded block, back to front.
fn targets_of(source: &[u8]) -> (r: Vec<Rgb>)
    requires
        source@.len() == 48 || source@.len() == 64,
    ensures
        r@ == spec_targets(source@),
        r@.len() == 16,
{
    let n = source.len();
    let stride = n / 16;
    let mut r: Vec<Rgb> = Vec::new();
    let mut j: usize = 0;
    while j < 16
        invariant
            n == source@.len(),
            n == 48 || n == 64,
            stride == n / 16,
            j <= 16,
            r@.len() == j,
            forall|q: int| 0 <= q < j ==> r@[q] == spec_targets(source@)[q],
        decreases 16 - j,
    {
        proof {
            assert(stride * (15 - j as int) + 2 < n) by (nonlinear_arith)
                requires
                    stride == n / 16,
                    n == 48 || n == 64,
                    0 <= j < 16,
            ;
        }
        let base = stride * (15 - j);
        r.push(Rgb { r: source[base], g: source[base + 1], b: source[base + 2] });
        j = j + 1;
    }
    assert(r@ =~= spec_targets(source@));
    r
}

/// Quantizes the targets through 5-6-5 and removes adjacent duplicates.
fn colorspace_of(targets: &Vec<Rgb>) -> (r: Vec<Rgb>)
    requires
        targets@.len() == 16,
    ensures
        r@ == spec_colorspace(targets@),
        r@.len() >= 1,
{
    let ghost q = targets@.map_values(|t: Rgb| spec_quantize565(t));
    let mut r: Vec<Rgb> = Vec::new();
    let mut i: usize = 0;
    proof {
        assert(q.take(0) =~= Seq::<Rgb>::empty());
    }
    while i < 16
        invariant
            targets@.len() == 16,
            q == targets@.map_values(|t: Rgb| spec_quantize565(t)),
            i <= 16,
            r@ == spec_dedup(q.take(i as int)),
            i > 0 ==> r@.len() >= 1 && r@.last() == q[i - 1],
        decreases 16 - i,
    {
        let quantized = DxtImage::enc565_decode(DxtImage::enc565_encode(targets[i]));
        proof {
            assert(quantized == q[i as int]);
            assert(q.take(i as int + 1).drop_last() =~= q.take(i as int));
            assert(q.take(i as int + 1).last() == q[i as int]);
        }
        if r.len() == 0 {
            r.push(quantized);
        } else {
            let last = r[r.len() - 1];
            if !(last.r == quantized.r && last.g == quantized.g && last.b == quantized.b) {
                r.push(quantized);
            }
        }
        i = i + 1;
    }
    proof {
        assert(q.take(16) =~= q);
    }
    r
}

/// Finds the target farthest from the reference, the last such on ties.
fn farthest_of(targets: &Vec<Rgb>, reference: Rgb) -> (r: Rgb)
    requires
        targets@.len() == 16,
    ensures
        r == spec_far_from(targets@, reference, 1, targets@[0]),
{
    let mut best = targets[0];
    let mut i: usize = 1;
    while i < 16
        invariant
            targets@.len() == 16,
            1 <= i <= 16,
            spec_far_from(targets@, reference, i as int, best) == spec_far_from(
                targets@,
                reference,
                1,
                targets@[0],
            ),
        decreases 16 - i,
    {
        let d_t = DxtImage::diff(targets[i], reference);
        let d_b = DxtImage::diff(best, reference);
        if d_t >= d_b {
            best = targets[i];
        }
        i = i + 1;
    }
    best
}

/// Scales one channel away from the reference by five halves, truncating
/// toward zero and wrapping to eight bits.
fn extrap_channel(t: u8, r: u8) -> (v: u8)
    ensures
        v == spec_extrap_channel(t, r),
{
    if t >= r {
        ((r as u16 + (t - r) as u16 * 5 / 2) % 256) as u8
    } else {
        (((r as u16 + 1280) - (r - t) as u16 * 5 / 2) % 256) as u8
    }
}

/// The squared distance between two colors is at most three full channels.
proof fn lemma_diff_bound(a: Rgb, b: Rgb)
    ensures
        0 <= spec_diff(a, b) <= 0x2FA03,
{
    let dr = a.r - b.r;
    let dg = a.g - b.g;
    let db = a.b - b.b;
    assert(0 <= dr * dr <= 0xFE01 && 0 <= dg * dg <= 0xFE01 && 0 <= db * db <= 0xFE01) by (
    nonlinear_arith)
        requires
            -255 <= dr <= 255,
            -255 <= dg <= 255,
            -255 <= db <= 255,
    ;
}

/// The squared distance from `t` to the nearest palette entry, and the index
/// of the first nearest entry.
fn nearest4(p0: Rgb, p1: Rgb, p2: Rgb, p3: Rgb, t: Rgb) -> (r: (u32, i32))
    ensures
        r.0 == spec_nearest_idx(p0, p1, p2, p3, t),
        r.1 == spec_min4(p0, p1, p2, p3, t),
        0 <= r.1 <= 0x2FA03,
{
    proof {
        lemma_diff_bound(p0, t);
        lemma_diff_bound(p1, t);
        lemma_diff_bound(p2, t);
        lemma_diff_bound(p3, t);
    }
    let d0 = DxtImage::diff(p0, t);
    let d1 = DxtImage::diff(p1, t);
    let d2 = DxtImage::diff(p2, t);
    let d3 = DxtImage::diff(p3, t);
    if d0 <= d1 && d0 <= d2 && d0 <= d3 {
        (0, d0)
    } else if d1 <= d2 && d1 <= d3 {
        (1, d1)
    } else if d2 <= d3 {
        (2, d2)
    } else {
        (3, d3)
    }
}

/// The summed distance of all sixteen targets to a palette.
fn palette_error(p0: Rgb, p1: Rgb, p2: Rgb, p3: Rgb, ts: &Vec<Rgb>) -> (r: u32)
    requires
        ts@.len() == 16,
    ensures
        r == spec_total_err(p0, p1, p2, p3, ts@, 16),
        r < 0xFFFF_FFFF,
{
    let mut total: u32 = 0;
    let mut i: usize = 0;
    while i < 16
        invariant
            ts@.len() == 16,
            i <= 16,
            total == spec_total_err(p0, p1, p2, p3, ts@, i as int),
            total <= i * 0x2FA03,
        decreases 16 - i,
    {
        let (_, d) = nearest4(p0, p1, p2, p3, ts[i]);
        total = total + d as u32;
        i = i + 1;
    }
    total
}

/// The encoder's three-color palette entry for a pair under a mode.
fn pal2_of(c0: Rgb, c1: Rgb, use0: bool) -> (r: Rgb)
    ensures
        r == spec_pal2(c0, c1, use0),
{
    if use0 {
        Rgb {
            r: ((c0.r as u16 + c1.r as u16 + 1) / 2) as u8,
            g: ((c0.g as u16 + c1.g as u16 + 1) / 2) as u8,
            b: ((c0.b as u16 + c1.b as u16 + 1) / 2) as u8,
        }
    } else {
        Rgb {
            r: ((2 * c0.r as u16 + c1.r as u16 + 1) / 3) as u8,
            g: ((2 * c0.g as u16 + c1.g as u16 + 1) / 3) as u8,
            b: ((2 * c0.b as u16 + c1.b as u16 + 1) / 3) as u8,
        }
    }
}

/// The encoder's fourth palette entry for a pair under a mode.
fn pal3_of(c0: Rgb, c1: Rgb, use0: bool) -> (r: Rgb)
    ensures
        r == spec_pal3(c0, c1, use0),
{
    if use0 {
        Rgb { r: 0, g: 0, b: 0 }
    } else {
        Rgb {
            r: ((c0.r as u16 + 2 * c1.r as u16 + 1) / 3) as u8,
            g: ((c0.g as u16 + 2 * c1.g as u16 + 1) / 3) as u8,
            b: ((c0.b as u16 + 2 * c1.b as u16 + 1) / 3) as u8,
        }
    }
}

/// Runs the exhaustive endpoint search over the color pool.
fn search_best(cs: &Vec<Rgb>, ts: &Vec<Rgb>) -> (best: (Rgb, Rgb, Rgb, Rgb, bool, u32))
    requires
        ts@.len() == 16,
    ensures
        ({
            let s = spec_search_from(cs@, ts@, 0, 0, 0, spec_search_init());
            best.0 == s.p0 && best.1 == s.p1 && best.2 == s.p2 && best.3 == s.p3 && best.4
                == s.use0 && best.5 == s.err
        }),
{
    let ghost target = spec_search_from(cs@, ts@, 0, 0, 0, spec_search_init());
    let black = Rgb { r: 0, g: 0, b: 0 };
    let mut p0 = black;
    let mut p1 = black;
    let mut p2 = black;
    let mut p3 = black;
    let mut use0 = false;
    let mut err: u32 = 0xFFFF_FFFF;
    let n = cs.len();
    let mut i: usize = 0;
    let mut j: usize = 0;
    let mut m: usize = 0;
    while i < n
        invariant_except_break
            n == cs@.len(),
            ts@.len() == 16,
            target == spec_search_from(cs@, ts@, 0, 0, 0, spec_search_init()),
            j <= i,
            m <= 2,
            spec_search_from(
                cs@,
                ts@,
                i as int,
                j as int,
                m as int,
                (SearchState { p0, p1, p2, p3, use0, err: err as int }),
            ) == target,
        ensures
            (SearchState { p0, p1, p2, p3, use0, err: err as int }) == target,
        decreases n - i, i - j, 2 - m,
    {
        if j >= i {
            i = i + 1;
            j = 0;
            m = 0;
        } else if m >= 2 {
            j = j + 1;
            m = 0;
        } else {
            let c0 = cs[i];
            let c1 = cs[j];
            let q2 = pal2_of(c0, c1, m == 1);
            let q3 = pal3_of(c0, c1, m == 1);
            let cand_err = palette_error(c0, c1, q2, q3, ts);
            proof {
                assert(spec_candidate(cs@[i as int], cs@[j as int], m == 1, ts@) == SearchState {
                    p0: c0,
                    p1: c1,
                    p2: q2,
                    p3: q3,
                    use0: m == 1,
                    err: cand_err as int,
                });
            }
            if cand_err < err {
                p0 = c0;
                p1 = c1;
                p2 = q2;
                p3 = q3;
                use0 = m == 1;
                err = cand_err;
                if err < 4 {
                    break ;
                }
            }
            m = m + 1;
        }
    }
    (p0, p1, p2, p3, use0, err)
}

/// Packs the two-bit index of every target against the chosen palette.
fn pack_indices(p0: Rgb, p1: Rgb, p2: Rgb, p3: Rgb, ts: &Vec<Rgb>) -> (r: u32)
    requires
        ts@.len() == 16,
    ensures
        r == spec_pack_indices(p0, p1, p2, p3, ts@, 16),
{
    let mut acc: u32 = 0;
    let mut i: usize = 0;
    while i < 16
        invariant
            ts@.len() == 16,
            i <= 16,
            acc == spec_pack_indices(p0, p1, p2, p3, ts@, i as int),
        decreases 16 - i,
    {
        let (idx, _) = nearest4(p0, p1, p2, p3, ts[i]);
        acc = (acc << 2u32) | idx;
        i = i + 1;
    }
    acc
}

impl DxtImage {
    /// Picks the two 5-6-5 endpoints and sixteen two-bit indices that
    /// reproduce one block of targets with the least summed squared error,
    /// and emits the eight-byte color block.
    pub fn encode_dxt_colors(source: &[u8]) -> (dest: Vec<u8>)
        requires
            source@.len() == 48 || source@.len() == 64,
        ensures
            dest@ == spec_encode_dxt_colors(source@),
            dest@.len() == 8,
    {
        let targets = targets_of(source);
        let mut colorspace = colorspace_of(&targets);
        let mut flat: Option<u16> = None;
        if colorspace.len() == 1 {
            let reference = colorspace[0];
            let far = farthest_of(&targets, reference);
            let ex = Rgb {
                r: extrap_channel(far.r, reference.r),
                g: extrap_channel(far.g, reference.g),
                b: extrap_channel(far.b, reference.b),
            };
            let encoded = DxtImage::enc565_encode(ex);
            let requantized = DxtImage::enc565_decode(encoded);
            if requantized.r == reference.r && requantized.g == reference.g && requantized.b
                == reference.b {
                flat = Some(encoded);
            } else {
                colorspace.push(requantized);
            }
        }
        let mut dest: Vec<u8> = Vec::new();
        match flat {
            Some(encoded) => {
                push_u16(&mut dest, encoded);
                push_u16(&mut dest, encoded);
                push_u32(&mut dest, 0);
                assert(dest@ =~= spec_encode_dxt_colors(source@));
            },
            None => {
                let best = search_best(&colorspace, &targets);
                let (p0, p1, p2, p3, use0, _) = best;
                let mut color0 = DxtImage::enc565_encode(p0);
                let mut color1 = DxtImage::enc565_encode(p1);
                let mut idxs = pack_indices(p0, p1, p2, p3, &targets);
                if color0 > color1 {
                    if use0 {
                        let tmp = color0;
                        color0 = color1;
                        color1 = tmp;
                        idxs = idxs ^ (((idxs & 0xAAAA_AAAA) >> 1u32) ^ 0x5555_5555);
                    }
                } else if !use0 {
                    let tmp = color0;
                    color0 = color1;
                    color1 = tmp;
                    idxs = idxs ^ 0x5555_5555;
                }
                push_u16(&mut dest, color0);
                push_u16(&mut dest, color1);
                push_u32(&mut dest, idxs);
                assert(dest@ =~= spec_encode_dxt_colors(source@));
            },
        }
        dest
    }
}

/// The first-nearest entry of an alpha table, folded from entry `i` on: the
/// index kept and its squared error.
pub open spec fn spec_alpha_arg_from(table: Seq<u8>, a: u8, i: int, bi: int, bd: int) -> (
    int,
    int,
)
    decreases 8 - i,
{
    if i < 0 || i >= 8 {
        (bi, bd)
    } else {
        let d = (table[i] - a) * (table[i] - a);
        if d < bd {
            spec_alpha_arg_from(table, a, i + 1, i, d)
        } else {
            spec_alpha_arg_from(table, a, i + 1, bi, bd)
        }
    }
}

/// The first table entry nearest to `a`, with its squared error.
pub open spec fn spec_alpha_nearest(table: Seq<u8>, a: u8) -> (int, int) {
    spec_alpha_arg_from(table, a, 1, 0, (table[0] - a) * (table[0] - a))
}

/// The summed error and packed three-bit indices of the first `k` alphas
/// against a table.
pub open spec fn spec_alpha_fold(table: Seq<u8>, alphas: Seq<u8>, k: int) -> (int, u64)
    decreases k,
{
    if k <= 0 {
        (0, 0u64)
    } else {
        let prev = spec_alpha_fold(table, alphas, k - 1);
        let cur = spec_alpha_nearest(table, alphas[k - 1]);
        (prev.0 + cur.1, prev.1 | ((cur.0 as u64) << ((3 * (k - 1)) as u64)))
    }
}

/// The least of the first `k` alphas.
pub open spec fn spec_min_fold(s: Seq<u8>, k: int, cur: u8) -> u8
    decreases k,
{
    if k <= 0 {
        cur
    } else {
        let prev = spec_min_fold(s, k - 1, cur);
        if s[k - 1] < prev {
            s[k - 1]
        } else {
            prev
        }
    }
}

/// The greatest of the first `k` alphas.
pub open spec fn spec_max_fold(s: Seq<u8>, k: int, cur: u8) -> u8
    decreases k,
{
    if k <= 0 {
        cur
    } else {
        let prev = spec_max_fold(s, k - 1, cur);
        if s[k - 1] > prev {
            s[k - 1]
        } else {
            prev
        }
    }
}

/// The greatest alpha among the first `k` that is not `excl`, if any.
pub open spec fn spec_max_not(s: Seq<u8>, k: int, excl: u8) -> Option<u8>
    decreases k,
{
    if k <= 0 {
        None
    } else {
        let prev = spec_max_not(s, k - 1, excl);
        if s[k - 1] == excl {
            prev
        } else {
            match prev {
                None => Some(s[k - 1]),
                Some(p) => if s[k - 1] > p {
                    Some(s[k - 1])
                } else {
                    Some(p)
                },
            }
        }
    }
}

/// The least alpha among the first `k` that is not `excl`, if any.
pub open spec fn spec_min_not(s: Seq<u8>, k: int, excl: u8) -> Option<u8>
    decreases k,
{
    if k <= 0 {
        None
    } else {
        let prev = spec_min_not(s, k - 1, excl);
        if s[k - 1] == excl {
            prev
        } else {
            match prev {
                None => Some(s[k - 1]),
                Some(p) => if s[k - 1] < p {
                    Some(s[k - 1])
                } else {
                    Some(p)
                },
            }
        }
    }
}

/// The sixteen alpha samples of one decoded block.
pub open spec fn spec_block_alphas(source: Seq<u8>) -> Seq<u8> {
    Seq::new(16, |i: int| source[4 * i + 3])
}

/// The six low-order bytes of the packed DXT5 alpha indices.
pub open spec fn spec_alpha48_bytes(bits: u64) -> Seq<u8> {
    seq![
        (bits % 0x100) as u8,
        ((bits / 0x100) % 0x100) as u8,
        ((bits / 0x1_0000) % 0x100) as u8,
        ((bits / 0x100_0000) % 0x100) as u8,
        ((bits / 0x1_0000_0000) % 0x100) as u8,
        ((bits / 0x100_0000_0000) % 0x100) as u8,
    ]
}

/// The eight alpha bytes of a DXT5 block: the encoder tries the plain
/// min-max endpoint pair and the pair that reserves the constants 0 and 255,
/// and keeps whichever sums to less squared error.
pub open spec fn spec_encode_dxt5_alpha_bytes(source: Seq<u8>) -> Seq<u8> {
    let alphas = spec_block_alphas(source);
    let alpha07 = spec_min_fold(alphas, 16, alphas[0]);
    let alpha17 = spec_max_fold(alphas, 16, alphas[0]);
    let f7 = spec_alpha_fold(spec_alpha_table_dxt5(alpha07, alpha17), alphas, 16);
    let alpha05 = match spec_max_not(alphas, 16, 255) {
        Some(v) => v,
        None => 255u8,
    };
    let alpha15 = match spec_min_not(alphas, 16, 0) {
        Some(v) => v,
        None => 0u8,
    };
    let f5 = spec_alpha_fold(spec_alpha_table_dxt5(alpha05, alpha15), alphas, 16);
    if f5.0 < f7.0 {
        seq![alpha05, alpha15] + spec_alpha48_bytes(f5.1)
    } else {
        seq![alpha07, alpha17] + spec_alpha48_bytes(f7.1)
    }
}

/// The eight alpha bytes of a DXT3 block: each sample rounded to a nibble.
pub open spec fn spec_dxt3_bits(alphas: Seq<u8>, k: int) -> u64
    decreases k,
{
    if k <= 0 {
        0u64
    } else {
        spec_dxt3_bits(alphas, k - 1) | ((((alphas[k - 1] + 0x8) / 0x11) as u64) << ((4 * (k
            - 1)) as u64))
    }
}

/// The sixteen bytes of an encoded DXT3 or DXT5 block, or the eight of a DXT1
/// block.
pub open spec fn spec_encode_block(source: Seq<u8>, format: u8) -> Seq<u8> {
    if spec_is_dxt1(format) {
        spec_encode_dxt_colors(source)
    } else if format == DDT_FORMAT_DXT3 {
        u64_le_bytes(spec_dxt3_bits(spec_block_alphas(source), 16)) + spec_encode_dxt_colors(
            source,
        )
    } else {
        spec_encode_dxt5_alpha_bytes(source) + spec_encode_dxt_colors(source)
    }
}

/// One block's texels gathered from a row of decoded scanlines: four line
/// segments of the block column `x`.
pub open spec fn spec_woven(source: Seq<u8>, x: int, s2: int, bc: int) -> Seq<u8> {
    source.subrange((bc * 0 + x) * s2, (bc * 0 + x) * s2 + s2) + source.subrange(
        (bc * 1 + x) * s2,
        (bc * 1 + x) * s2 + s2,
    ) + source.subrange((bc * 2 + x) * s2, (bc * 2 + x) * s2 + s2) + source.subrange(
        (bc * 3 + x) * s2,
        (bc * 3 + x) * s2 + s2,
    )
}

/// The encoded blocks of one row of scanlines, from block column `x` on.
pub open spec fn spec_row_from(source: Seq<u8>, format: u8, x: int, bc: int) -> Seq<u8>
    decreases bc - x,
{
    if x < 0 || x >= bc {
        Seq::empty()
    } else {
        spec_encode_block(
            spec_woven(source, x, spec_decoded_bytes_per_block(format) / 4, bc),
            format,
        ) + spec_row_from(source, format, x + 1, bc)
    }
}

/// The encoded form of one row of scanlines.
pub open spec fn spec_encode_row(source: Seq<u8>, format: u8) -> Seq<u8> {
    spec_row_from(source, format, 0, source.len() as int / spec_decoded_bytes_per_block(format))
}

/// Finds the first table entry nearest to one alpha sample.
fn alpha_nearest(table: &Vec<u8>, a: u8) -> (r: (usize, i32))
    requires
        table@.len() == 8,
    ensures
        r.0 as int == spec_alpha_nearest(table@, a).0,
        r.1 as int == spec_alpha_nearest(table@, a).1,
        r.0 < 8,
        0 <= r.1 <= 0xFE01,
{
    let d0 = table[0] as i32 - a as i32;
    proof {
        assert(0 <= d0 * d0 <= 0xFE01) by (nonlinear_arith)
            requires
                -255 <= d0 <= 255,
        ;
    }
    let mut bi: usize = 0;
    let mut bd: i32 = d0 * d0;
    let mut i: usize = 1;
    while i < 8
        invariant
            table@.len() == 8,
            1 <= i <= 8,
            bi < 8,
            0 <= bd <= 0xFE01,
            spec_alpha_arg_from(table@, a, i as int, bi as int, bd as int) == spec_alpha_nearest(
                table@,
                a,
            ),
        decreases 8 - i,
    {
        let d = table[i] as i32 - a as i32;
        proof {
            assert(0 <= d * d <= 0xFE01) by (nonlinear_arith)
                requires
                    -255 <= d <= 255,
            ;
        }
        let dd = d * d;
        if dd < bd {
            bi = i;
            bd = dd;
        }
        i = i + 1;
    }
    (bi, bd)
}

impl DxtImage {
    /// Scores one pair of DXT5 alpha endpoints against the block's samples:
    /// the summed squared error and the packed three-bit indices.
    pub fn encode_dxt5_alpha(alpha0: u8, alpha1: u8, alphas: &Vec<u8>) -> (r: (i32, u64))
        requires
            alphas@.len() == 16,
        ensures
            r.0 as int == spec_alpha_fold(spec_alpha_table_dxt5(alpha0, alpha1), alphas@, 16).0,
            r.1 == spec_alpha_fold(spec_alpha_table_dxt5(alpha0, alpha1), alphas@, 16).1,
    {
        let table = DxtImage::alpha_table_dxt5(alpha0, alpha1);
        let mut total_error: i32 = 0;
        let mut indices: u64 = 0;
        let mut i: usize = 0;
        while i < 16
            invariant
                alphas@.len() == 16,
                table@ == spec_alpha_table_dxt5(alpha0, alpha1),
                i <= 16,
                0 <= total_error <= i * 0xFE01,
                total_error as int == spec_alpha_fold(table@, alphas@, i as int).0,
                indices == spec_alpha_fold(table@, alphas@, i as int).1,
            decreases 16 - i,
        {
            let (idx, err) = alpha_nearest(&table, alphas[i]);
            total_error = total_error + err;
            indices = indices | ((idx as u64) << ((3 * i) as u64));
            i = i + 1;
        }
        (total_error, indices)
    }

    /// Encodes a DXT5 block: the better of the two alpha endpoint pairings,
    /// then the color half.
    pub fn encode_dxt5_block(source: &[u8]) -> (dest: Vec<u8>)
        requires
            source@.len() == 64,
        ensures
            dest@ == spec_encode_block(source@, DDT_FORMAT_DXT5),
            dest@.len() == 16,
    {
        let ghost spec_alphas = spec_block_alphas(source@);
        let mut alphas: Vec<u8> = Vec::new();
        let mut i: usize = 0;
        while i < 16
            invariant
                source@.len() == 64,
                i <= 16,
                alphas@.len() == i,
                forall|j: int| 0 <= j < i ==> alphas@[j] == spec_block_alphas(source@)[j],
            decreases 16 - i,
        {
            alphas.push(source[i * 4 + 3]);
            i = i + 1;
        }
        proof {
            assert(alphas@ =~= spec_alphas);
        }

        let mut alpha07: u8 = alphas[0];
        let mut alpha17: u8 = alphas[0];
        let mut alpha05: Option<u8> = None;
        let mut alpha15: Option<u8> = None;
        let mut i: usize = 0;
        while i < 16
            invariant
                alphas@.len() == 16,
                i <= 16,
                alpha07 == spec_min_fold(alphas@, i as int, alphas@[0]),
                alpha17 == spec_max_fold(alphas@, i as int, alphas@[0]),
                alpha05 == spec_max_not(alphas@, i as int, 255),
                alpha15 == spec_min_not(alphas@, i as int, 0),
            decreases 16 - i,
        {
            let a = alphas[i];
            if a < alpha07 {
                alpha07 = a;
            }
            if a > alpha17 {
                alpha17 = a;
            }
            if a != 255 {
                alpha05 = match alpha05 {
                    None => Some(a),
                    Some(p) => if a > p {
                        Some(a)
                    } else {
                        Some(p)
                    },
                };
            }
            if a != 0 {
                alpha15 = match alpha15 {
                    None => Some(a),
                    Some(p) => if a < p {
                        Some(a)
                    } else {
                        Some(p)
                    },
                };
            }
            i = i + 1;
        }
        let a05 = match alpha05 {
            Some(v) => v,
            None => 255,
        };
        let a15 = match alpha15 {
            Some(v) => v,
            None => 0,
        };

        let (error7, indices7) = DxtImage::encode_dxt5_alpha(alpha07, alpha17, &alphas);
        let (error5, indices5) = DxtImage::encode_dxt5_alpha(a05, a15, &alphas);

        let mut dest: Vec<u8> = Vec::new();
        let bits: u64;
        if error5 < error7 {
            dest.push(a05);
            dest.push(a15);
            bits = indices5;
        } else {
            dest.push(alpha07);
            dest.push(alpha17);
            bits = indices7;
        }
        dest.push((bits % 0x100) as u8);
        dest.push(((bits / 0x100) % 0x100) as u8);
        dest.push(((bits / 0x1_0000) % 0x100) as u8);
        dest.push(((bits / 0x100_0000) % 0x100) as u8);
        dest.push(((bits / 0x1_0000_0000) % 0x100) as u8);
        dest.push(((bits / 0x100_0000_0000) % 0x100) as u8);
        proof {
            assert(dest@ =~= spec_encode_dxt5_alpha_bytes(source@));
        }
        let mut colors = DxtImage::encode_dxt_colors(source);
        dest.append(&mut colors);
        proof {
            assert(dest@ =~= spec_encode_block(source@, DDT_FORMAT_DXT5));
        }
        dest
    }

    /// Encodes a DXT3 block: each alpha sample rounded to a nibble, then the
    /// color half.
    pub fn encode_dxt3_block(source: &[u8]) -> (dest: Vec<u8>)
        requires
            source@.len() == 64,
        ensures
            dest@ == spec_encode_block(source@, DDT_FORMAT_DXT3),
            dest@.len() == 16,
    {
        let ghost spec_alphas = spec_block_alphas(source@);
        let mut bits: u64 = 0;
        let mut i: usize = 0;
        while i < 16
            invariant
                source@.len() == 64,
                i <= 16,
                bits == spec_dxt3_bits(spec_block_alphas(source@), i as int),
            decreases 16 - i,
        {
            let a = source[i * 4 + 3];
            let nibble: u64 = ((a as u16 + 0x8) / 0x11) as u64;
            proof {
                assert(spec_block_alphas(source@)[i as int] == source@[4 * i as int + 3]);
            }
            bits = bits | (nibble << ((4 * i) as u64));
            i = i + 1;
        }
        let mut dest: Vec<u8> = Vec::new();
        push_u64(&mut dest, bits);
        let mut colors = DxtImage::encode_dxt_colors(source);
        dest.append(&mut colors);
        proof {
            assert(dest@ =~= spec_encode_block(source@, DDT_FORMAT_DXT3));
        }
        dest
    }

    /// Encodes a DXT1 block: the color half alone.
    pub fn encode_dxt1_block(source: &[u8]) -> (dest: Vec<u8>)
        requires
            source@.len() == 48,
        ensures
            dest@ == spec_encode_block(source@, DDT_FORMAT_DXT1),
            dest@.len() == 8,
    {
        DxtImage::encode_dxt_colors(source)
    }
}

/// Gathers the four line segments of block column `x` into one contiguous
/// block.
fn weave_block(source: &[u8], x: usize, bc: usize, s2: usize) -> (block: Vec<u8>)
    requires
        s2 == 12 || s2 == 16,
        x < bc,
        source@.len() == (4 * bc) * s2,
    ensures
        block@ == spec_woven(source@, x as int, s2 as int, bc as int),
        block@.len() == 4 * s2,
{
    let total = source.len();
    let ghost bci = bc as int;
    let ghost n = source@.len();
    proof {
        assert(0 <= x * s2 && x * s2 + s2 <= n && 0 <= (bci + x) * s2 && (bci + x) * s2 + s2 <= n
            && 0 <= (2 * bci + x) * s2 && (2 * bci + x) * s2 + s2 <= n && 0 <= (3 * bci + x) * s2
            && (3 * bci + x) * s2 + s2 <= n && (bci * 0 + x) * s2 == x * s2 && (bci * 1 + x) * s2
            == (bci + x) * s2 && (bci * 2 + x) * s2 == (2 * bci + x) * s2 && (bci * 3 + x) * s2 == (
        3 * bci + x) * s2) by (nonlinear_arith)
            requires
                0 <= x < bci,
                s2 == 12 || s2 == 16,
                n == (4 * bci) * s2,
        ;
    }
    let mut block = slice_to_vec(slice_subrange(source, x * s2, x * s2 + s2));
    let mut seg1 = slice_to_vec(slice_subrange(source, (bc + x) * s2, (bc + x) * s2 + s2));
    block.append(&mut seg1);
    let mut seg2 = slice_to_vec(slice_subrange(source, (2 * bc + x) * s2, (2 * bc + x) * s2 + s2));
    block.append(&mut seg2);
    let mut seg3 = slice_to_vec(slice_subrange(source, (3 * bc + x) * s2, (3 * bc + x) * s2 + s2));
    block.append(&mut seg3);
    proof {
        assert(block@ =~= spec_woven(source@, x as int, s2 as int, bc as int));
    }
    block
}

/// Encodes one row of scanlines: weaves each block column's four line
/// segments together, then encodes the block.
fn encode_row(source: &[u8], format: u8) -> (dest: Vec<u8>)
    requires
        spec_is_dxt(format),
        source@.len() as int % spec_decoded_bytes_per_block(format) == 0,
    ensures
        dest@ == spec_encode_row(source@, format),
{
    let n = source.len();
    let dbpb = DxtImage::decoded_bytes_per_block(format);
    let s2 = dbpb / 4;
    let bc = n / dbpb;
    let ghost bci = bc as int;
    proof {
        assert(n == bci * dbpb && bci * dbpb == (4 * bci) * s2) by (nonlinear_arith)
            requires
                s2 == dbpb as int / 4,
                dbpb == 48 || dbpb == 64,
                bci == n as int / dbpb as int,
                n as int % dbpb as int == 0,
        ;
    }
    let mut dest: Vec<u8> = Vec::new();
    let mut x: usize = 0;
    while x < bc
        invariant
            x <= bc,
            bci == bc as int,
            n == source@.len(),
            n == (4 * bci) * s2,
            s2 == 12 || s2 == 16,
            spec_is_dxt(format),
            s2 == spec_decoded_bytes_per_block(format) / 4,
            dbpb == spec_decoded_bytes_per_block(format),
            bci == n as int / dbpb as int,
            dest@ + spec_row_from(source@, format, x as int, bci) == spec_row_from(
                source@,
                format,
                0,
                bci,
            ),
        decreases bc - x,
    {
        let block = weave_block(source, x, bc, s2);
        let mut encoded: Vec<u8>;
        if format == DDT_FORMAT_DXT1 || format == DDT_FORMAT_DXT1DE {
            encoded = DxtImage::encode_dxt1_block(block.as_slice());
        } else if format == DDT_FORMAT_DXT3 {
            encoded = DxtImage::encode_dxt3_block(block.as_slice());
        } else {
            encoded = DxtImage::encode_dxt5_block(block.as_slice());
        }
        proof {
            assert(encoded@ == spec_encode_block(
                spec_woven(source@, x as int, s2 as int, bci),
                format,
            ));
        }
        let ghost dest_prev = dest@;
        dest.append(&mut encoded);
        proof {
            assert(dest_prev + spec_row_from(source@, format, x as int, bci) =~= dest@
                + spec_row_from(source@, format, x as int + 1, bci));
        }
        x = x + 1;
    }
    proof {
        assert(dest@ + Seq::<u8>::empty() =~= dest@);
    }
    dest
}

impl DxtImage {
    /// Encodes one row of DXT1 scanlines.
    pub fn encode_dxt1_row(source: &[u8]) -> (dest: Vec<u8>)
        requires
            source@.len() % 48 == 0,
        ensures
            dest@ == spec_encode_row(source@, DDT_FORMAT_DXT1),
    {
        encode_row(source, DDT_FORMAT_DXT1)
    }

    /// Encodes one row of DXT3 scanlines.
    pub fn encode_dxt3_row(source: &[u8]) -> (dest: Vec<u8>)
        requires
            source@.len() % 64 == 0,
        ensures
            dest@ == spec_encode_row(source@, DDT_FORMAT_DXT3),
    {
        encode_row(source, DDT_FORMAT_DXT3)
    }

    /// Encodes one row of DXT5 scanlines.
    pub fn encode_dxt5_row(source: &[u8]) -> (dest: Vec<u8>)
        requires
            source@.len() % 64 == 0,
        ensures
            dest@ == spec_encode_row(source@, DDT_FORMAT_DXT5),
    {
        encode_row(source, DDT_FORMAT_DXT5)
    }
}

/// One four-byte input texel rearranged for encoding: blue-green-red-alpha in,
/// red-green-blue(-alpha) out, with the bump-map channel swap applied on the
/// input side.
pub open spec fn spec_prep_texel(chunk: Seq<u8>, format: u8, usage: u8) -> Seq<u8> {
    let b = chunk[0];
    let g = chunk[1];
    let r = if spec_bump_swap(usage, format) {
        chunk[3]
    } else {
        chunk[2]
    };
    let a = if spec_bump_swap(usage, format) {
        chunk[2]
    } else {
        chunk[3]
    };
    if spec_is_dxt1(format) {
        seq![r, g, b]
    } else {
        seq![r, g, b, a]
    }
}

/// The whole image rearranged for encoding, texel by texel.
pub open spec fn spec_prepared(data: Seq<u8>, format: u8, usage: u8) -> Seq<u8>
    decreases data.len(),
{
    if data.len() < 4 {
        Seq::empty()
    } else {
        spec_prep_texel(data.subrange(0, 4), format, usage) + spec_prepared(
            data.skip(4),
            format,
            usage,
        )
    }
}

/// The encoded rows of a prepared image, from row `y` on.
pub open spec fn spec_rows_from(
    prepared: Seq<u8>,
    format: u8,
    y: int,
    rows: int,
    rowbytes: int,
) -> Seq<u8>
    decreases rows - y,
{
    if y < 0 || y >= rows {
        Seq::empty()
    } else {
        spec_encode_row(prepared.subrange(y * rowbytes, (y + 1) * rowbytes), format)
            + spec_rows_from(prepared, format, y + 1, rows, rowbytes)
    }
}

/// The block-compressed form of a whole image: the input rearranged for
/// encoding, then each row of blocks encoded in turn.
pub open spec fn spec_compress(data: Seq<u8>, format: u8, usage: u8, w: int, h: int) -> Seq<u8> {
    spec_rows_from(
        spec_prepared(data, format, usage),
        format,
        0,
        h / 4,
        (w / 4) * spec_decoded_bytes_per_block(format),
    )
}

/// How many bytes each prepared texel occupies.
pub open spec fn spec_prep_stride(format: u8) -> int {
    if spec_is_dxt1(format) {
        3
    } else {
        4
    }
}

/// The prepared image's length: its texel count times the prepared stride.
pub proof fn lemma_prepared_len(data: Seq<u8>, format: u8, usage: u8)
    requires
        data.len() % 4 == 0,
    ensures
        spec_prepared(data, format, usage).len() == (data.len() / 4) * spec_prep_stride(format),
    decreases data.len(),
{
    if data.len() >= 4 {
        lemma_prepared_len(data.skip(4), format, usage);
        assert(data.skip(4).len() % 4 == 0);
        assert((data.len() / 4) * spec_prep_stride(format) == spec_prep_stride(format) + (
        data.skip(4).len() / 4) * spec_prep_stride(format)) by (nonlinear_arith)
            requires
                data.len() >= 4,
                data.len() % 4 == 0,
        ;
    }
}

impl DxtImage {
    /// Rearranges a four-channel image into the encoder's input order,
    /// dropping the alpha plane for DXT1.
    pub fn prepare_to_encoding(data: &[u8], format: u8, usage: u8) -> (r: Vec<u8>)
        requires
            spec_is_dxt(format),
            data@.len() % 4 == 0,
        ensures
            r@ == spec_prepared(data@, format, usage),
    {
        let n = data.len();
        let swap = usage & DDT_USAGE_BUMP == DDT_USAGE_BUMP && format == DDT_FORMAT_DXT5;
        let keep_alpha = !(format == DDT_FORMAT_DXT1 || format == DDT_FORMAT_DXT1DE);
        let mut r: Vec<u8> = Vec::new();
        let mut i: usize = 0;
        proof {
            assert(data@.skip(0) =~= data@);
        }
        while i < n
            invariant
                n == data@.len(),
                n % 4 == 0,
                i <= n,
                i % 4 == 0,
                spec_is_dxt(format),
                swap == spec_bump_swap(usage, format),
                keep_alpha == !spec_is_dxt1(format),
                r@ + spec_prepared(data@.skip(i as int), format, usage) == spec_prepared(
                    data@,
                    format,
                    usage,
                ),
            decreases n - i,
        {
            let ghost rest = data@.skip(i as int);
            proof {
                assert(rest.len() >= 4);
                assert(rest.subrange(0, 4) =~= data@.subrange(i as int, i as int + 4));
                assert(rest.skip(4) =~= data@.skip(i as int + 4));
            }
            let ghost r_prev = r@;
            let b = data[i];
            let g = data[i + 1];
            let red: u8;
            let a: u8;
            if swap {
                red = data[i + 3];
                a = data[i + 2];
            } else {
                red = data[i + 2];
                a = data[i + 3];
            }
            r.push(red);
            r.push(g);
            r.push(b);
            if keep_alpha {
                r.push(a);
            }
            proof {
                assert(r_prev + spec_prepared(data@.skip(i as int), format, usage) =~= r@
                    + spec_prepared(data@.skip(i as int + 4), format, usage));
            }
            i = i + 4;
        }
        proof {
            assert(data@.skip(n as int) =~= Seq::<u8>::empty());
            assert(r@ + Seq::<u8>::empty() =~= r@);
        }
        r
    }

    /// Block-compresses a four-channel image: multiples of four on each side,
    /// one row of blocks at a time.
    #[verifier::loop_isolation(false)]
    pub fn compress(data: &[u8], format: u8, usage: u8, width: u32, height: u32) -> (r: Vec<u8>)
        requires
            spec_is_dxt(format),
            width % 4 == 0,
            height % 4 == 0,
            width > 0,
            height > 0,
            data@.len() == width * height * 4,
            width * height * 4 <= u32::MAX,
        ensures
            r@ == spec_compress(data@, format, usage, width as int, height as int),
    {
        let n0 = data.len();
        let prepared = DxtImage::prepare_to_encoding(data, format, usage);
        let ghost w = width as int;
        let ghost h = height as int;
        let dbpb = DxtImage::decoded_bytes_per_block(format);
        let width_blocks = width / 4;
        let height_blocks = height / 4;
        let ghost stride = spec_prep_stride(format);
        proof {
            lemma_prepared_len(data@, format, usage);
            assert(data@.len() / 4 == w * h && (w * h) * stride == (h / 4) * ((w / 4) * (4 * 4
                * stride)) && w * h * 4 >= w * h && (w / 4) * (4 * 4 * stride) == (w / 4) * dbpb
                && (w / 4) * dbpb <= w * h * 4) by (nonlinear_arith)
                requires
                    w % 4 == 0,
                    h % 4 == 0,
                    w > 0,
                    h > 0,
                    data@.len() == w * h * 4,
                    stride == spec_prep_stride(format),
                    dbpb == spec_decoded_bytes_per_block(format),
                    spec_is_dxt(format),
            ;
        }
        let rowbytes: usize = (width_blocks as usize) * dbpb;
        let ghost rows = h / 4;
        let ghost rbi = rowbytes as int;
        proof {
            assert(prepared@.len() == rows * rbi && rows * rbi >= 0) by (nonlinear_arith)
                requires
                    prepared@.len() == (w * h) * stride,
                    (w * h) * stride == rows * rbi,
                    rows > 0,
            ;
        }
        let mut out: Vec<u8> = Vec::new();
        let mut y: u32 = 0;
        while y < height_blocks
            invariant
                y <= height_blocks,
                out@ + spec_rows_from(prepared@, format, y as int, rows, rbi) == spec_rows_from(
                    prepared@,
                    format,
                    0,
                    rows,
                    rbi,
                ),
            decreases height_blocks - y,
        {
            proof {
                assert(0 <= y * rbi && y as int * rbi + rbi == (y + 1) as int * rbi && (y + 1) as int
                    * rbi <= rows * rbi) by (nonlinear_arith)
                    requires
                        0 <= y < rows,
                        rbi >= 0,
                ;
            }
            let start: usize = (y as usize) * rowbytes;
            let chunk = slice_subrange(prepared.as_slice(), start, start + rowbytes);
            proof {
                assert(chunk@.len() as int % spec_decoded_bytes_per_block(format) == 0) by (
                nonlinear_arith)
                    requires
                        chunk@.len() == rbi,
                        rbi == (w / 4) * spec_decoded_bytes_per_block(format),
                        spec_decoded_bytes_per_block(format) == 48
                            || spec_decoded_bytes_per_block(format) == 64,
                ;
            }
            let mut row = encode_row(chunk, format);
            let ghost out_prev = out@;
            out.append(&mut row);
            proof {
                assert(out_prev + spec_rows_from(prepared@, format, y as int, rows, rbi) =~= out@
                    + spec_rows_from(prepared@, format, y as int + 1, rows, rbi));
            }
            y = y + 1;
        }
        proof {
            assert(out@ + Seq::<u8>::empty() =~= out@);
        }
        out
    }
}

/// Removing duplicates from a run of one color leaves that color alone.
proof fn lemma_dedup_constant(s: Seq<Rgb>, e: Rgb)
    requires
        s.len() >= 1,
        forall|i: int| 0 <= i < s.len() ==> s[i] == e,
    ensures
        spec_dedup(s) == seq![e],
    decreases s.len(),
{
    if s.len() == 1 {
        assert(spec_dedup(s.drop_last()) =~= Seq::<Rgb>::empty());
        assert(spec_dedup(s) =~= seq![e]);
    } else {
        lemma_dedup_constant(s.drop_last(), e);
        assert(s.last() == e);
        assert(spec_dedup(s) =~= seq![e]);
    }
}

/// The farthest-target fold over targets of one color settles on that color.
proof fn lemma_far_constant(ts: Seq<Rgb>, e: Rgb, i: int)
    requires
        forall|j: int| 0 <= j < ts.len() ==> ts[j] == e,
    ensures
        spec_far_from(ts, e, i, e) == e,
    decreases ts.len() - i,
{
    if 0 <= i < ts.len() {
        lemma_far_constant(ts, e, i + 1);
    }
}

/// One channel of a 5-6-5 code expanded by the decoder re-encodes to the same
/// code, and recomposition of the three fields gives the code back.
proof fn lemma_expanded_reencodes(e: u16)
    ensures
        spec_enc565_encode(spec_rgb888(e)) == e,
{
    let v1 = e >> 11;
    let v2 = (e & 0x07E0) >> 5;
    let v3 = e & 0x001F;
    assert(v1 <= 0x1F && v2 <= 0x3F && v3 <= 0x1F) by (bit_vector)
        requires
            v1 == e >> 11,
            v2 == (e & 0x07E0) >> 5,
            v3 == e & 0x001F,
    ;
    assert((((v1 * 255 + 16) / 32 + (v1 * 255 + 16)) / 32 * 0x1F + 0x7E) / 0xFF == v1 && ((v1 * 255
        + 16) / 32 + (v1 * 255 + 16)) / 32 <= 255) by (bit_vector)
        requires
            v1 <= 0x1F,
    ;
    assert((((v2 * 255 + 32) / 64 + (v2 * 255 + 32)) / 64 * 0x3F + 0x7E) / 0xFF == v2 && ((v2 * 255
        + 32) / 64 + (v2 * 255 + 32)) / 64 <= 255) by (bit_vector)
        requires
            v2 <= 0x3F,
    ;
    assert((((v3 * 255 + 16) / 32 + (v3 * 255 + 16)) / 32 * 0x1F + 0x7E) / 0xFF == v3 && ((v3 * 255
        + 16) / 32 + (v3 * 255 + 16)) / 32 <= 255) by (bit_vector)
        requires
            v3 <= 0x1F,
    ;
    assert((v1 << 11) | (v2 << 5) | v3 == e) by (bit_vector)
        requires
            v1 == e >> 11,
            v2 == (e & 0x07E0) >> 5,
            v3 == e & 0x001F,
    ;
    let d = spec_rgb888(e);
    assert(d.r == ((v1 * 255 + 16) / 32 + (v1 * 255 + 16)) / 32);
    assert(d.g == ((v2 * 255 + 32) / 64 + (v2 * 255 + 32)) / 64);
    assert(d.b == ((v3 * 255 + 16) / 32 + (v3 * 255 + 16)) / 32);
    assert(((d.r * 0x1F + 0x7E) / 0xFF) as u16 == v1);
    assert(((d.g * 0x3F + 0x7E) / 0xFF) as u16 == v2);
    assert(((d.b * 0x1F + 0x7E) / 0xFF) as u16 == v3);
}

/// A flat DXT1 block survives the codec to within 5-6-5 quantization: a block
/// whose sixteen texels all hold a quantization-fixed color encodes to equal
/// endpoints with zero indices, every decoded texel is that code's expansion
/// with full alpha, and the expansion re-encodes to the same 5-6-5 code.
pub proof fn lemma_flat_dxt1_round_trip(source: Seq<u8>, k: Rgb, usage: u8, alpha: Seq<u8>)
    requires
        source.len() == 48,
        forall|j: int|
            0 <= j < 16 ==> #[trigger] source[3 * j] == k.r && source[3 * j + 1] == k.g && source[3
                * j + 2] == k.b,
        spec_quantize565(k) == k,
    ensures
        spec_encode_dxt_colors(source) == u16_le_bytes(spec_enc565_encode(k)) + u16_le_bytes(
            spec_enc565_encode(k),
        ) + u32_le_bytes(0),
        forall|bx: int, by: int|
            0 <= bx < 4 && 0 <= by < 4 ==> #[trigger] spec_block_texel(
                DDT_FORMAT_DXT1,
                usage,
                alpha,
                spec_enc565_encode(k),
                spec_enc565_encode(k),
                0,
                bx,
                by,
            ) == seq![
                spec_rgb888(spec_enc565_encode(k)).b,
                spec_rgb888(spec_enc565_encode(k)).g,
                spec_rgb888(spec_enc565_encode(k)).r,
                255u8,
            ],
        spec_enc565_encode(spec_rgb888(spec_enc565_encode(k))) == spec_enc565_encode(k),
{
    let e = spec_enc565_encode(k);
    let ts = spec_targets(source);
    assert forall|j: int| 0 <= j < 16 implies ts[j] == k by {
        assert(source[3 * (15 - j)] == k.r && source[3 * (15 - j) + 1] == k.g && source[3 * (15
            - j) + 2] == k.b);
    }
    let q = ts.map_values(|t: Rgb| spec_quantize565(t));
    assert(forall|j: int| 0 <= j < 16 ==> q[j] == k);
    lemma_dedup_constant(q, k);
    let cs = spec_colorspace(ts);
    assert(cs == seq![k]);
    assert(cs[0] == k);
    lemma_far_constant(ts, k, 1);
    assert(ts[0] == k);
    let far = spec_far_from(ts, k, 1, ts[0]);
    assert(far == k);
    assert(spec_extrap_channel(k.r, k.r) == k.r);
    assert(spec_extrap_channel(k.g, k.g) == k.g);
    assert(spec_extrap_channel(k.b, k.b) == k.b);
    assert(spec_extrap(far, k) == k);
    assert(spec_enc565_decode(e) == k);
    assert(spec_encode_dxt_colors(source) == u16_le_bytes(e) + u16_le_bytes(e) + u32_le_bytes(0));

    lemma_expanded_reencodes(e);
    assert forall|bx: int, by: int| 0 <= bx < 4 && 0 <= by < 4 implies #[trigger] spec_block_texel(
        DDT_FORMAT_DXT1,
        usage,
        alpha,
        e,
        e,
        0,
        bx,
        by,
    ) == seq![
        spec_rgb888(e).b,
        spec_rgb888(e).g,
        spec_rgb888(e).r,
        255u8,
    ] by {
        let sh = (2 * (4 * by + bx)) as u32;
        assert((0u32 >> sh) & 0x03 == 0) by (bit_vector);
        assert(spec_texel_index(0, bx, by) == 0);
        assert(!spec_bump_swap(usage, DDT_FORMAT_DXT1));
        assert(spec_block_texel(DDT_FORMAT_DXT1, usage, alpha, e, e, 0, bx, by) =~= seq![
            spec_rgb888(e).b,
            spec_rgb888(e).g,
            spec_rgb888(e).r,
            255u8,
        ]);
    }
}

} // verus!
