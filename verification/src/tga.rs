//! The TGA interchange carrier: a minimal uncompressed true-color targa whose
//! file name carries the four DDT side-channel bytes as
//! `name.(usage,alpha,format,mipmap).tga`.

use vstd::prelude::*;
use vstd::slice::{slice_subrange, slice_to_vec};

use crate::bytes::{
    le16_at, push_decimal, push_u16, read_u16, spec_dec_bytes, u16_le_bytes,
};
use crate::consts::{
    DDT_FORMAT_GREY, TGA_ALPHA_BITS_MASK, TGA_SCREEN_ORIGIN_BIT_MASK, TGA_UNCOMPRESSED_TRUE_COLOR,
};

verus! {

/// What can go wrong while reading a targa carrier.
#[derive(Clone, Copy, Debug, PartialEq, Eq, Structural)]
pub enum TgaError {
    /// The file name does not carry the DDT side-channel suffix.
    MalformedName,
    /// The data ends before the fixed header is complete.
    UnexpectedEnd,
}

/// A minimal targa image with the DDT side-channel bytes it travels with.
pub struct TgaFile {
    pub id_length: u8,
    pub map_type: u8,
    pub image_type: u8,
    pub map_origin: u16,
    pub map_length: u16,
    pub map_entry_size: u8,
    pub x_origin: u16,
    pub y_origin: u16,
    pub image_width: u16,
    pub image_height: u16,
    pub pixel_depth: u8,
    pub image_desc: u8,
    pub raw_data: Vec<u8>,
    /// The four DDT side-channel bytes: usage, alpha, format, mipmap levels.
    pub image_id: [u8; 4],
}

/// The mathematical image of a [`TgaFile`].
#[verifier::ext_equal]
pub ghost struct TgaSpec {
    pub id_length: u8,
    pub map_type: u8,
    pub image_type: u8,
    pub map_origin: u16,
    pub map_length: u16,
    pub map_entry_size: u8,
    pub x_origin: u16,
    pub y_origin: u16,
    pub image_width: u16,
    pub image_height: u16,
    pub pixel_depth: u8,
    pub image_desc: u8,
    pub raw_data: Seq<u8>,
    pub image_id: Seq<u8>,
}

impl View for TgaFile {
    type V = TgaSpec;

    open spec fn view(&self) -> TgaSpec {
        TgaSpec {
            id_length: self.id_length,
            map_type: self.map_type,
            image_type: self.image_type,
            map_origin: self.map_origin,
            map_length: self.map_length,
            map_entry_size: self.map_entry_size,
            x_origin: self.x_origin,
            y_origin: self.y_origin,
            image_width: self.image_width,
            image_height: self.image_height,
            pixel_depth: self.pixel_depth,
            image_desc: self.image_desc,
            raw_data: self.raw_data@,
            image_id: self.image_id@,
        }
    }
}

/// A byte sequence split at every byte the predicate accepts; separators are
/// dropped, empty tokens kept, as the standard splitter behaves.
pub open spec fn spec_split(s: Seq<u8>, is_sep: spec_fn(u8) -> bool) -> Seq<Seq<u8>>
    decreases s.len(),
{
    if s.len() == 0 {
        seq![Seq::empty()]
    } else if is_sep(s[0]) {
        seq![Seq::<u8>::empty()] + spec_split(s.skip(1), is_sep)
    } else {
        let rest = spec_split(s.skip(1), is_sep);
        rest.update(0, seq![s[0]] + rest[0])
    }
}

/// A split yields at least one token.
pub proof fn lemma_split_nonempty(s: Seq<u8>, is_sep: spec_fn(u8) -> bool)
    ensures
        spec_split(s, is_sep).len() >= 1,
    decreases s.len(),
{
    if s.len() > 0 {
        lemma_split_nonempty(s.skip(1), is_sep);
    }
}

/// Whether a byte is the dot separator.
pub open spec fn spec_is_dot(c: u8) -> bool {
    c == 46
}

/// Whether a byte separates the side-channel parameters.
pub open spec fn spec_is_param_sep(c: u8) -> bool {
    c == 44 || c == 40 || c == 41
}

/// The value of an all-digit token, most significant digit first.
pub open spec fn spec_dec_value(s: Seq<u8>) -> int
    decreases s.len(),
{
    if s.len() == 0 {
        0
    } else {
        spec_dec_value(s.drop_last()) * 10 + (s.last() - 48)
    }
}

/// Whether every byte of a token is an ASCII digit.
pub open spec fn spec_all_digits(s: Seq<u8>) -> bool {
    forall|i: int| 0 <= i < s.len() ==> 48 <= #[trigger] s[i] <= 57
}

/// The byte value a decimal token parses to, if it is one.
pub open spec fn spec_parse_u8(s: Seq<u8>) -> Option<u8> {
    if s.len() >= 1 && spec_all_digits(s) && spec_dec_value(s) <= 255 {
        Some(spec_dec_value(s) as u8)
    } else {
        None
    }
}

/// A longer digit prefix never shrinks the value.
proof fn lemma_dec_value_grows(s: Seq<u8>, i: int)
    requires
        spec_all_digits(s),
        0 <= i <= s.len(),
    ensures
        spec_dec_value(s.take(i)) <= spec_dec_value(s),
        spec_dec_value(s) >= 0,
    decreases s.len() - i,
{
    if i == s.len() {
        assert(s.take(i) =~= s);
        lemma_dec_value_nonneg(s);
    } else {
        lemma_dec_value_grows(s, i + 1);
        lemma_dec_value_nonneg(s.take(i));
        assert(s.take(i + 1).drop_last() =~= s.take(i));
        assert(spec_dec_value(s.take(i)) * 10 >= spec_dec_value(s.take(i))) by (nonlinear_arith)
            requires
                spec_dec_value(s.take(i)) >= 0,
        ;
    }
}

/// The value of an all-digit token is never negative.
proof fn lemma_dec_value_nonneg(s: Seq<u8>)
    requires
        spec_all_digits(s),
    ensures
        spec_dec_value(s) >= 0,
    decreases s.len(),
{
    if s.len() > 0 {
        assert(s.drop_last() =~= s.take(s.len() - 1));
        assert(spec_all_digits(s.drop_last()));
        lemma_dec_value_nonneg(s.drop_last());
        assert(spec_dec_value(s.drop_last()) * 10 >= 0) by (nonlinear_arith)
            requires
                spec_dec_value(s.drop_last()) >= 0,
        ;
    }
}

/// Splits a byte string at dots, or at the parameter separators.
fn split_bytes(s: &[u8], dots: bool) -> (r: Vec<Vec<u8>>)
    ensures
        dots ==> r.deep_view() == spec_split(s@, |c: u8| spec_is_dot(c)),
        !dots ==> r.deep_view() == spec_split(s@, |c: u8| spec_is_param_sep(c)),
{
    let ghost f: spec_fn(u8) -> bool = if dots {
        |c: u8| spec_is_dot(c)
    } else {
        |c: u8| spec_is_param_sep(c)
    };
    let n = s.len();
    let mut tokens: Vec<Vec<u8>> = Vec::new();
    let mut cur: Vec<u8> = Vec::new();
    let mut i: usize = 0;
    proof {
        assert(s@.skip(0) =~= s@);
        lemma_split_nonempty(s@, f);
        assert(Seq::<Seq<u8>>::empty() + seq![Seq::<u8>::empty() + spec_split(s@, f)[0]]
            + spec_split(s@, f).skip(1) =~~= spec_split(s@, f));
    }
    while i < n
        invariant
            n == s@.len(),
            i <= n,
            dots ==> f == (|c: u8| spec_is_dot(c)),
            !dots ==> f == (|c: u8| spec_is_param_sep(c)),
            tokens.deep_view() + seq![cur@ + spec_split(s@.skip(i as int), f)[0]] + spec_split(
                s@.skip(i as int),
                f,
            ).skip(1) == spec_split(s@, f),
        decreases n - i,
    {
        proof {
            lemma_split_nonempty(s@.skip(i as int), f);
            lemma_split_nonempty(s@.skip(i as int + 1), f);
            assert(s@.skip(i as int)[0] == s@[i as int]);
            assert(s@.skip(i as int).skip(1) =~= s@.skip(i as int + 1));
        }
        let c = s[i];
        let is_sep = if dots {
            c == 46
        } else {
            c == 44 || c == 40 || c == 41
        };
        proof {
            assert(is_sep == f(s@[i as int]));
        }
        if is_sep {
            tokens.push(cur);
            cur = Vec::new();
            proof {
                assert(tokens.deep_view() + seq![cur@ + spec_split(s@.skip(i as int + 1), f)[0]]
                    + spec_split(s@.skip(i as int + 1), f).skip(1) =~~= spec_split(s@, f));
            }
        } else {
            let ghost rest = spec_split(s@.skip(i as int + 1), f);
            proof {
                assert(spec_split(s@.skip(i as int), f) == rest.update(0, seq![s@[i as int]]
                    + rest[0]));
                assert(spec_split(s@.skip(i as int), f)[0] == seq![s@[i as int]] + rest[0]);
                assert(spec_split(s@.skip(i as int), f).skip(1) =~= rest.skip(1));
            }
            cur.push(c);
            proof {
                assert(tokens.deep_view() + seq![cur@ + rest[0]] + rest.skip(1) =~~= spec_split(
                    s@,
                    f,
                ));
            }
        }
        i = i + 1;
    }
    proof {
        assert(s@.skip(n as int) =~= Seq::<u8>::empty());
        assert(spec_split(Seq::<u8>::empty(), f) == seq![Seq::<u8>::empty()]);
    }
    tokens.push(cur);
    proof {
        assert(tokens.deep_view() =~~= spec_split(s@, f));
    }
    tokens
}

/// Parses an all-digit token as a byte value.
fn parse_u8_bytes(s: &[u8]) -> (r: Option<u8>)
    ensures
        r == spec_parse_u8(s@),
{
    let n = s.len();
    if n == 0 {
        return None;
    }
    let mut acc: u32 = 0;
    let mut i: usize = 0;
    proof {
        assert(s@.take(0) =~= Seq::<u8>::empty());
    }
    while i < n
        invariant
            n == s@.len(),
            i <= n,
            forall|j: int| 0 <= j < i ==> 48 <= #[trigger] s@[j] <= 57,
            acc == spec_dec_value(s@.take(i as int)),
            acc <= 255,
        decreases n - i,
    {
        let c = s[i];
        if c < 48 || c > 57 {
            return None;
        }
        proof {
            assert(s@.take(i as int + 1).drop_last() =~= s@.take(i as int));
        }
        acc = acc * 10 + (c - 48) as u32;
        if acc > 255 {
            proof {
                if spec_all_digits(s@) {
                    lemma_dec_value_grows(s@, i as int + 1);
                }
            }
            return None;
        }
        i = i + 1;
    }
    proof {
        assert(s@.take(n as int) =~= s@);
    }
    Some(acc as u8)
}

/// The 18 fixed header bytes followed by the pixel data.
pub open spec fn spec_tga_bytes(t: TgaSpec) -> Seq<u8> {
    seq![t.id_length, t.map_type, t.image_type] + u16_le_bytes(t.map_origin) + u16_le_bytes(
        t.map_length,
    ) + seq![t.map_entry_size] + u16_le_bytes(t.x_origin) + u16_le_bytes(t.y_origin)
        + u16_le_bytes(t.image_width) + u16_le_bytes(t.image_height) + seq![
        t.pixel_depth,
        t.image_desc,
    ] + t.raw_data
}

/// The carrier read back from its bytes and its file name: the fixed header,
/// the pixel data, and the four side-channel bytes parsed from the
/// `name.(usage,alpha,format,mipmap).tga` suffix.
pub open spec fn spec_parse_tga(d: Seq<u8>, name: Seq<u8>) -> Result<TgaSpec, TgaError> {
    if d.len() < 18 {
        Err(TgaError::UnexpectedEnd)
    } else {
        let parts = spec_split(name, |c: u8| spec_is_dot(c));
        if parts.len() != 3 {
            Err(TgaError::MalformedName)
        } else {
            let params = spec_split(parts[1], |c: u8| spec_is_param_sep(c));
            if params.len() != 6 {
                Err(TgaError::MalformedName)
            } else {
                match (
                    spec_parse_u8(params[1]),
                    spec_parse_u8(params[2]),
                    spec_parse_u8(params[3]),
                    spec_parse_u8(params[4]),
                ) {
                    (Some(usage), Some(alpha), Some(format), Some(mipmap)) => Ok(
                        TgaSpec {
                            id_length: d[0],
                            map_type: d[1],
                            image_type: d[2],
                            map_origin: le16_at(d, 3),
                            map_length: le16_at(d, 5),
                            map_entry_size: d[7],
                            x_origin: le16_at(d, 8),
                            y_origin: le16_at(d, 10),
                            image_width: le16_at(d, 12),
                            image_height: le16_at(d, 14),
                            pixel_depth: d[16],
                            image_desc: d[17],
                            raw_data: d.skip(18),
                            image_id: seq![usage, alpha, format, mipmap],
                        },
                    ),
                    _ => Err(TgaError::MalformedName),
                }
            }
        }
    }
}

impl TgaFile {
    /// Builds a carrier around decoded pixels: 8-bit depth without alpha for
    /// greyscale, 32-bit with an 8-bit alpha otherwise, screen origin set.
    pub fn new(
        width: u16,
        height: u16,
        usage: u8,
        alpha: u8,
        format: u8,
        mipmap_levels: u8,
        raw_data: Vec<u8>,
    ) -> (r: TgaFile)
        ensures
            r.id_length == 0,
            r.map_type == 0,
            r.image_type == TGA_UNCOMPRESSED_TRUE_COLOR,
            r.map_origin == 0,
            r.map_length == 0,
            r.map_entry_size == 0,
            r.x_origin == 0,
            r.y_origin == 0,
            r.image_width == width,
            r.image_height == height,
            r.pixel_depth == (if format == DDT_FORMAT_GREY {
                8u8
            } else {
                32u8
            }),
            r.image_desc == ((if format == DDT_FORMAT_GREY {
                0u8
            } else {
                8u8
            }) & TGA_ALPHA_BITS_MASK) | TGA_SCREEN_ORIGIN_BIT_MASK,
            r.raw_data@ == raw_data@,
            r.image_id@ == seq![usage, alpha, format, mipmap_levels],
    {
        let num_alpha_bits: u8;
        let other_channel_bits: u8;
        if format == DDT_FORMAT_GREY {
            num_alpha_bits = 0;
            other_channel_bits = 8;
        } else {
            num_alpha_bits = 8;
            other_channel_bits = 24;
        }
        let pixel_depth: u8 = num_alpha_bits + other_channel_bits;
        let mut image_desc: u8 = num_alpha_bits & TGA_ALPHA_BITS_MASK;
        image_desc = image_desc | TGA_SCREEN_ORIGIN_BIT_MASK;
        let r = TgaFile {
            id_length: 0,
            map_type: 0,
            image_type: TGA_UNCOMPRESSED_TRUE_COLOR,
            map_origin: 0,
            map_length: 0,
            map_entry_size: 0,
            x_origin: 0,
            y_origin: 0,
            image_width: width,
            image_height: height,
            pixel_depth,
            image_desc,
            raw_data,
            image_id: [usage, alpha, format, mipmap_levels],
        };
        proof {
            assert(r.image_id@ =~= seq![usage, alpha, format, mipmap_levels]);
        }
        r
    }

    /// Reads a carrier back from its bytes and its file name.
    pub fn open(data: &[u8], file_name: &[u8]) -> (r: Result<TgaFile, TgaError>)
        ensures
            match (r, spec_parse_tga(data@, file_name@)) {
                (Ok(t), Ok(ts)) => t@ == ts,
                (Err(e), Err(es)) => e == es,
                _ => false,
            },
    {
        let n = data.len();
        if n < 18 {
            return Err(TgaError::UnexpectedEnd);
        }
        let parts = split_bytes(file_name, true);
        if parts.len() != 3 {
            return Err(TgaError::MalformedName);
        }
        proof {
            assert(parts.deep_view()[1] == parts@[1]@);
        }
        let params = split_bytes(parts[1].as_slice(), false);
        if params.len() != 6 {
            return Err(TgaError::MalformedName);
        }
        proof {
            assert(params.deep_view()[1] == params@[1]@);
            assert(params.deep_view()[2] == params@[2]@);
            assert(params.deep_view()[3] == params@[3]@);
            assert(params.deep_view()[4] == params@[4]@);
        }
        let usage = match parse_u8_bytes(params[1].as_slice()) {
            Some(v) => v,
            None => {
                return Err(TgaError::MalformedName);
            },
        };
        let alpha = match parse_u8_bytes(params[2].as_slice()) {
            Some(v) => v,
            None => {
                return Err(TgaError::MalformedName);
            },
        };
        let format = match parse_u8_bytes(params[3].as_slice()) {
            Some(v) => v,
            None => {
                return Err(TgaError::MalformedName);
            },
        };
        let mipmap_levels = match parse_u8_bytes(params[4].as_slice()) {
            Some(v) => v,
            None => {
                return Err(TgaError::MalformedName);
            },
        };
        let t = TgaFile {
            id_length: data[0],
            map_type: data[1],
            image_type: data[2],
            map_origin: read_u16(data, 3),
            map_length: read_u16(data, 5),
            map_entry_size: data[7],
            x_origin: read_u16(data, 8),
            y_origin: read_u16(data, 10),
            image_width: read_u16(data, 12),
            image_height: read_u16(data, 14),
            pixel_depth: data[16],
            image_desc: data[17],
            raw_data: slice_to_vec(slice_subrange(data, 18, n)),
            image_id: [usage, alpha, format, mipmap_levels],
        };
        proof {
            assert(t.raw_data@ =~= data@.skip(18));
            assert(t.image_id@ =~= seq![usage, alpha, format, mipmap_levels]);
            assert(t@ =~= spec_parse_tga(data@, file_name@).unwrap());
        }
        Ok(t)
    }

    /// The carrier's bytes: the 18 fixed header bytes, then the pixel data.
    pub fn to_bytes(&self) -> (r: Vec<u8>)
        ensures
            r@ == spec_tga_bytes(self@),
    {
        let mut bytes: Vec<u8> = Vec::new();
        bytes.push(self.id_length);
        bytes.push(self.map_type);
        bytes.push(self.image_type);
        push_u16(&mut bytes, self.map_origin);
        push_u16(&mut bytes, self.map_length);
        bytes.push(self.map_entry_size);
        push_u16(&mut bytes, self.x_origin);
        push_u16(&mut bytes, self.y_origin);
        push_u16(&mut bytes, self.image_width);
        push_u16(&mut bytes, self.image_height);
        bytes.push(self.pixel_depth);
        bytes.push(self.image_desc);
        let mut data = self.raw_data.clone();
        proof {
            assert(data@ =~= self.raw_data@);
        }
        bytes.append(&mut data);
        proof {
            assert(bytes@ =~= spec_tga_bytes(self@));
        }
        bytes
    }

    /// The file name the carrier saves under: the stem with the four
    /// side-channel bytes appended as `.(usage,alpha,format,mipmap).tga`,
    /// and the bytes to store under it.
    pub fn save(&self, stem: &Vec<u8>) -> (r: (Vec<u8>, Vec<u8>))
        ensures
            r.0@ == stem@ + seq![46u8, 40u8] + spec_dec_bytes(self.image_id@[0] as nat) + seq![
                44u8,
            ] + spec_dec_bytes(self.image_id@[1] as nat) + seq![44u8] + spec_dec_bytes(
                self.image_id@[2] as nat,
            ) + seq![44u8] + spec_dec_bytes(self.image_id@[3] as nat) + seq![
                41u8,
                46u8,
                116u8,
                103u8,
                97u8,
            ],
            r.1@ == spec_tga_bytes(self@),
    {
        let mut name = stem.clone();
        proof {
            assert(name@ =~= stem@);
        }
        name.push(46);
        name.push(40);
        push_decimal(&mut name, self.image_id[0] as u64);
        name.push(44);
        push_decimal(&mut name, self.image_id[1] as u64);
        name.push(44);
        push_decimal(&mut name, self.image_id[2] as u64);
        name.push(44);
        push_decimal(&mut name, self.image_id[3] as u64);
        name.push(41);
        name.push(46);
        name.push(116);
        name.push(103);
        name.push(97);
        proof {
            assert(name@ =~= stem@ + seq![46u8, 40u8] + spec_dec_bytes(self.image_id@[0] as nat)
                + seq![44u8] + spec_dec_bytes(self.image_id@[1] as nat) + seq![44u8]
                + spec_dec_bytes(self.image_id@[2] as nat) + seq![44u8] + spec_dec_bytes(
                self.image_id@[3] as nat,
            ) + seq![41u8, 46u8, 116u8, 103u8, 97u8]);
        }
        (name, self.to_bytes())
    }
}

} // verus!
