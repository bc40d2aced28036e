//! The BAR archive container: a header and table of contents in two on-wire
//! dialects (Legacy and Definitive Edition) over concatenated entry payloads,
//! and the keystream cipher that obfuscates sound entries.

use vstd::prelude::*;
use vstd::slice::{slice_subrange, slice_to_vec};
use vstd::wrapping::u64_specs;

use vstd::string::StringExecFns;
use vstd::utf8::encode_utf8;

use crate::bytes::{
    le16_at, le32_at, le64_at, lemma_concat_slices, lemma_extract_u32, lemma_extract_u64,
    push_decimal, push_u16,
    push_u32, push_u64, read_u16, read_u32, read_u64, spec_dec_bytes, spec_utf16_units,
    spec_zero_bytes, u16_le_bytes, u32_le_bytes, u64_le_bytes, u64_le_bytes_vec, utf16_str,
    utf16_to_string, utf16_units, zero_bytes,
};
use crate::consts::{
    BAR_VERSION_AOE3, BAR_VERSION_AOE3DE, BINARY_BAR_MAGIC, BINARY_SIGNATURE_ALZ4,
    BINARY_SIGNATURE_BAR, BINARY_SIGNATURE_L33T, BINARY_SIGNATURE_WAV_DECODED,
    BINARY_SIGNATURE_WAV_ENCODED, ENCODE_TYPE_ALZ4_L33T, ENCODE_TYPE_NONE, ENCODE_TYPE_SND,
};

verus! {

/// What can go wrong while reading an archive or decoding a sound entry.
#[derive(Clone, Copy, Debug, PartialEq, Eq, Structural)]
pub enum BarError {
    /// The first four bytes are not the archive signature.
    NotValidBarSignature,
    /// The version field is neither the Legacy nor the DE dialect.
    NotSupportedBarVersion,
    /// The secondary magic number does not match.
    NotValidBarMagic,
    /// The declared file count and the table of contents disagree.
    NotMatchedEntryCount,
    /// Deobfuscated sound data does not start with the RIFF magic.
    NotValidDecodedWavSignature,
    /// An entry name is not valid UTF-16.
    MalformedName,
    /// The data ends before a field that the layout promises.
    UnexpectedEnd,
}

/// One entry of the archive's table of contents.
pub struct BarEntry {
    /// Absolute payload position: `u64` on the wire for DE, `u32` for Legacy.
    pub offset: u64,
    /// Declared uncompressed size.
    pub file_size1: u32,
    /// Actual on-disk payload size.
    pub file_size2: u32,
    /// Duplicate size field (DE only).
    pub file_size3: u32,
    /// Last-write timestamp (Legacy only).
    pub year: u16,
    pub month: u16,
    pub day_of_week: u16,
    pub day: u16,
    pub hour: u16,
    pub minute: u16,
    pub second: u16,
    pub msecond: u16,
    /// Name length in UTF-16 code units.
    pub file_name_length: u32,
    /// Entry name, UTF-16LE bytes.
    pub file_name: Vec<u8>,
    /// Encoding class of the payload (DE only): plain, compressed stream, or
    /// obfuscated sound.
    pub is_encoded: u32,
}

/// The mathematical image of a [`BarEntry`].
#[verifier::ext_equal]
pub ghost struct BarEntrySpec {
    pub offset: u64,
    pub file_size1: u32,
    pub file_size2: u32,
    pub file_size3: u32,
    pub year: u16,
    pub month: u16,
    pub day_of_week: u16,
    pub day: u16,
    pub hour: u16,
    pub minute: u16,
    pub second: u16,
    pub msecond: u16,
    pub file_name_length: u32,
    pub file_name: Seq<u8>,
    pub is_encoded: u32,
}

impl View for BarEntry {
    type V = BarEntrySpec;

    open spec fn view(&self) -> BarEntrySpec {
        BarEntrySpec {
            offset: self.offset,
            file_size1: self.file_size1,
            file_size2: self.file_size2,
            file_size3: self.file_size3,
            year: self.year,
            month: self.month,
            day_of_week: self.day_of_week,
            day: self.day,
            hour: self.hour,
            minute: self.minute,
            second: self.second,
            msecond: self.msecond,
            file_name_length: self.file_name_length,
            file_name: self.file_name@,
            is_encoded: self.is_encoded,
        }
    }
}

/// An opened archive: the parsed header fields and the table of contents.
pub struct BarFile {
    pub signature: u32,
    pub version: u32,
    pub magic: u32,
    /// The fixed 264-byte zero region of the header.
    pub unk1: Vec<u8>,
    pub unk2: u32,
    pub file_count: u32,
    pub unk3: u32,
    /// Absolute position of the table of contents: `u64` on the wire for DE,
    /// `u32` for Legacy.
    pub files_table_offset: u64,
    pub unk4: u32,
    pub unk5: u32,
    /// Root path length in UTF-16 code units.
    pub root_path_length: u32,
    /// Root path, UTF-16LE bytes.
    pub root_path: Vec<u8>,
    /// File count repeated at the head of the table of contents.
    pub root_file_count: u32,
    pub entries: Vec<BarEntry>,
}

/// The mathematical image of a [`BarFile`].
#[verifier::ext_equal]
pub ghost struct BarSpec {
    pub signature: u32,
    pub version: u32,
    pub magic: u32,
    pub unk1: Seq<u8>,
    pub unk2: u32,
    pub file_count: u32,
    pub unk3: u32,
    pub files_table_offset: u64,
    pub unk4: u32,
    pub unk5: u32,
    pub root_path_length: u32,
    pub root_path: Seq<u8>,
    pub root_file_count: u32,
    pub entries: Seq<BarEntrySpec>,
}

impl View for BarFile {
    type V = BarSpec;

    open spec fn view(&self) -> BarSpec {
        BarSpec {
            signature: self.signature,
            version: self.version,
            magic: self.magic,
            unk1: self.unk1@,
            unk2: self.unk2,
            file_count: self.file_count,
            unk3: self.unk3,
            files_table_offset: self.files_table_offset,
            unk4: self.unk4,
            unk5: self.unk5,
            root_path_length: self.root_path_length,
            root_path: self.root_path@,
            root_file_count: self.root_file_count,
            entries: self.entries@.map_values(|e: BarEntry| e@),
        }
    }
}

/// Reads the four-byte little-endian signature at the head of a payload.
pub fn get_file_signature(source: &[u8], size: usize) -> (r: u32)
    requires
        size == 4,
        source@.len() >= 4,
    ensures
        r == le32_at(source@, 0),
{
    read_u32(source, 0)
}

/// The encoding class that the archive writer assigns to a payload beginning
/// with the given signature: compressed stream, obfuscated sound, or plain.
pub open spec fn spec_encoding_class(signature: u32) -> u32 {
    if signature == BINARY_SIGNATURE_ALZ4 || signature == BINARY_SIGNATURE_L33T {
        ENCODE_TYPE_ALZ4_L33T
    } else if signature == BINARY_SIGNATURE_WAV_ENCODED {
        ENCODE_TYPE_SND
    } else {
        ENCODE_TYPE_NONE
    }
}

/// A 64-bit value with its two 32-bit halves exchanged.
pub open spec fn spec_rotl32(x: u64) -> u64 {
    ((x % 0x1_0000_0000) * 0x1_0000_0000 + x / 0x1_0000_0000) as u64
}

/// The cipher state after `n` steps: the published constants stepped by
/// multiply, add and half-swap under wrapping 64-bit arithmetic.
pub open spec fn spec_key_state(n: nat) -> u64
    decreases n,
{
    if n == 0 {
        0x2AF92545ADDE0B65
    } else {
        spec_rotl32(
            u64_specs::wrapping_mul(
                0x39BAE3441DB35873,
                u64_specs::wrapping_add(spec_key_state((n - 1) as nat), 0x23966BA95E28C33F),
            ),
        )
    }
}

/// Byte `i` of the keystream: byte `i % 8` of the state used for block `i / 8`.
pub open spec fn spec_key_byte(i: nat) -> u8 {
    u64_le_bytes(spec_key_state(i / 8 + 1))[(i % 8) as int]
}

/// Byte `i` of the sound cipher applied to `s`.
pub open spec fn spec_cipher_byte(s: Seq<u8>, i: int) -> u8 {
    s[i] ^ spec_key_byte(i as nat)
}

/// Length of the fixed header fields shared by both dialects, up to and
/// including the file count.
pub open spec fn spec_common_header_len() -> int {
    284
}

/// Full header length of a dialect: the shared fields plus the offset block.
pub open spec fn spec_header_len(version: u32) -> int {
    if version == BAR_VERSION_AOE3 {
        292
    } else {
        304
    }
}

/// One table-of-contents entry read at byte position `pos` of `d`, together
/// with the position just past it.
pub open spec fn spec_parse_entry(d: Seq<u8>, pos: int, version: u32) -> Result<
    (BarEntrySpec, int),
    BarError,
> {
    if version == BAR_VERSION_AOE3 {
        if pos + 32 > d.len() {
            Err(BarError::UnexpectedEnd)
        } else {
            let name_len = le32_at(d, pos + 28);
            if pos + 32 + 2 * name_len > d.len() {
                Err(BarError::UnexpectedEnd)
            } else {
                Ok(
                    (
                        BarEntrySpec {
                            offset: le32_at(d, pos) as u64,
                            file_size1: le32_at(d, pos + 4),
                            file_size2: le32_at(d, pos + 8),
                            file_size3: 0,
                            year: le16_at(d, pos + 12),
                            month: le16_at(d, pos + 14),
                            day_of_week: le16_at(d, pos + 16),
                            day: le16_at(d, pos + 18),
                            hour: le16_at(d, pos + 20),
                            minute: le16_at(d, pos + 22),
                            second: le16_at(d, pos + 24),
                            msecond: le16_at(d, pos + 26),
                            file_name_length: name_len,
                            file_name: d.subrange(pos + 32, pos + 32 + 2 * name_len),
                            is_encoded: 0,
                        },
                        pos + 32 + 2 * name_len,
                    ),
                )
            }
        }
    } else {
        if pos + 24 > d.len() {
            Err(BarError::UnexpectedEnd)
        } else {
            let name_len = le32_at(d, pos + 20);
            if pos + 24 + 2 * name_len + 4 > d.len() {
                Err(BarError::UnexpectedEnd)
            } else {
                Ok(
                    (
                        BarEntrySpec {
                            offset: le64_at(d, pos),
                            file_size1: le32_at(d, pos + 8),
                            file_size2: le32_at(d, pos + 12),
                            file_size3: le32_at(d, pos + 16),
                            year: 0,
                            month: 0,
                            day_of_week: 0,
                            day: 0,
                            hour: 0,
                            minute: 0,
                            second: 0,
                            msecond: 0,
                            file_name_length: name_len,
                            file_name: d.subrange(pos + 24, pos + 24 + 2 * name_len),
                            is_encoded: le32_at(d, pos + 24 + 2 * name_len),
                        },
                        pos + 28 + 2 * name_len,
                    ),
                )
            }
        }
    }
}

/// `n` consecutive table-of-contents entries starting at `pos`, with the
/// position just past the last one.
pub open spec fn spec_parse_entries(d: Seq<u8>, pos: int, n: nat, version: u32) -> Result<
    (Seq<BarEntrySpec>, int),
    BarError,
>
    decreases n,
{
    if n == 0 {
        Ok((Seq::empty(), pos))
    } else {
        match spec_parse_entry(d, pos, version) {
            Err(e) => Err(e),
            Ok((entry, next)) => match spec_parse_entries(d, next, (n - 1) as nat, version) {
                Err(e) => Err(e),
                Ok((rest, end)) => Ok((seq![entry] + rest, end)),
            },
        }
    }
}

/// The whole archive read from `d`: the header fields of the dialect, then
/// the table of contents at the offset the header declares. Errors mirror the
/// order in which a sequential reader meets them.
pub open spec fn spec_parse_bar(d: Seq<u8>) -> Result<BarSpec, BarError> {
    if d.len() < 4 {
        Err(BarError::UnexpectedEnd)
    } else if le32_at(d, 0) != BINARY_SIGNATURE_BAR {
        Err(BarError::NotValidBarSignature)
    } else if d.len() < 8 {
        Err(BarError::UnexpectedEnd)
    } else {
        let version = le32_at(d, 4);
        if version != BAR_VERSION_AOE3DE && version != BAR_VERSION_AOE3 {
            Err(BarError::NotSupportedBarVersion)
        } else if d.len() < 12 {
            Err(BarError::UnexpectedEnd)
        } else if le32_at(d, 8) != BINARY_BAR_MAGIC {
            Err(BarError::NotValidBarMagic)
        } else if d.len() < spec_common_header_len() {
            Err(BarError::UnexpectedEnd)
        } else if d.len() < spec_header_len(version) {
            Err(BarError::UnexpectedEnd)
        } else {
            let file_count = le32_at(d, 280);
            let toc_offset: u64 = if version == BAR_VERSION_AOE3 {
                le32_at(d, 284) as u64
            } else {
                le64_at(d, 288)
            };
            let t = toc_offset as int;
            if t + 4 > d.len() {
                Err(BarError::UnexpectedEnd)
            } else {
                let root_len = le32_at(d, t);
                if t + 4 + 2 * root_len > d.len() {
                    Err(BarError::UnexpectedEnd)
                } else {
                    let q = t + 4 + 2 * root_len;
                    if q + 4 > d.len() {
                        Err(BarError::UnexpectedEnd)
                    } else {
                        let root_file_count = le32_at(d, q);
                        if file_count != root_file_count {
                            Err(BarError::NotMatchedEntryCount)
                        } else {
                            match spec_parse_entries(
                                d,
                                q + 4,
                                root_file_count as nat,
                                version,
                            ) {
                                Err(e) => Err(e),
                                Ok((entries, _)) => Ok(
                                    BarSpec {
                                        signature: BINARY_SIGNATURE_BAR,
                                        version,
                                        magic: BINARY_BAR_MAGIC,
                                        unk1: d.subrange(12, 276),
                                        unk2: le32_at(d, 276),
                                        file_count,
                                        unk3: if version == BAR_VERSION_AOE3 {
                                            0
                                        } else {
                                            le32_at(d, 284)
                                        },
                                        files_table_offset: toc_offset,
                                        unk4: if version == BAR_VERSION_AOE3 {
                                            le32_at(d, 288)
                                        } else {
                                            le32_at(d, 296)
                                        },
                                        unk5: if version == BAR_VERSION_AOE3 {
                                            0
                                        } else {
                                            le32_at(d, 300)
                                        },
                                        root_path_length: root_len,
                                        root_path: d.subrange(t + 4, t + 4 + 2 * root_len),
                                        root_file_count,
                                        entries,
                                    },
                                ),
                            }
                        }
                    }
                }
            }
        }
    }
}

/// Relates an executable parse result to its specification: success for
/// success with the same image, or the same error.
pub open spec fn bar_result_matches(r: Result<BarFile, BarError>, s: Result<
    BarSpec,
    BarError,
>) -> bool {
    match (r, s) {
        (Ok(b), Ok(bs)) => b@ == bs,
        (Err(e), Err(es)) => e == es,
        _ => false,
    }
}

/// Reads one table-of-contents entry at `pos`.
fn parse_entry(data: &[u8], pos: usize, version: u32) -> (r: Result<(BarEntry, usize), BarError>)
    requires
        pos <= data@.len(),
        version == BAR_VERSION_AOE3 || version == BAR_VERSION_AOE3DE,
    ensures
        match (r, spec_parse_entry(data@, pos as int, version)) {
            (Ok((e, next)), Ok((es, ns))) => e@ == es && next == ns && pos < next <= data@.len(),
            (Err(e), Err(es)) => e == es,
            _ => false,
        },
{
    let n = data.len();
    if version == BAR_VERSION_AOE3 {
        if n - pos < 32 {
            return Err(BarError::UnexpectedEnd);
        }
        let name_len = read_u32(data, pos + 28);
        if (name_len as u64) * 2 > (n - pos - 32) as u64 {
            return Err(BarError::UnexpectedEnd);
        }
        let nl2: usize = ((name_len as u64) * 2) as usize;
        let file_name = slice_to_vec(slice_subrange(data, pos + 32, pos + 32 + nl2));
        Ok(
            (
                BarEntry {
                    offset: read_u32(data, pos) as u64,
                    file_size1: read_u32(data, pos + 4),
                    file_size2: read_u32(data, pos + 8),
                    file_size3: 0,
                    year: read_u16(data, pos + 12),
                    month: read_u16(data, pos + 14),
                    day_of_week: read_u16(data, pos + 16),
                    day: read_u16(data, pos + 18),
                    hour: read_u16(data, pos + 20),
                    minute: read_u16(data, pos + 22),
                    second: read_u16(data, pos + 24),
                    msecond: read_u16(data, pos + 26),
                    file_name_length: name_len,
                    file_name,
                    is_encoded: 0,
                },
                pos + 32 + nl2,
            ),
        )
    } else {
        if n - pos < 28 {
            return Err(BarError::UnexpectedEnd);
        }
        let name_len = read_u32(data, pos + 20);
        if (name_len as u64) * 2 > (n - pos - 28) as u64 {
            return Err(BarError::UnexpectedEnd);
        }
        let nl2: usize = ((name_len as u64) * 2) as usize;
        let file_name = slice_to_vec(slice_subrange(data, pos + 24, pos + 24 + nl2));
        Ok(
            (
                BarEntry {
                    offset: read_u64(data, pos),
                    file_size1: read_u32(data, pos + 8),
                    file_size2: read_u32(data, pos + 12),
                    file_size3: read_u32(data, pos + 16),
                    year: 0,
                    month: 0,
                    day_of_week: 0,
                    day: 0,
                    hour: 0,
                    minute: 0,
                    second: 0,
                    msecond: 0,
                    file_name_length: name_len,
                    file_name,
                    is_encoded: read_u32(data, pos + 24 + nl2),
                },
                pos + 28 + nl2,
            ),
        )
    }
}

impl BarFile {
    /// Converts UTF-16LE bytes, as entry names are stored, to a string;
    /// `None` when they are not valid UTF-16.
    pub fn vec_u8_to_string_u16(source: &[u8]) -> (r: Option<String>)
        ensures
            r is Some <==> utf16_str(spec_utf16_units(source@)) is Some,
            r is Some ==> r.unwrap()@ == utf16_str(spec_utf16_units(source@)).unwrap(),
    {
        let units = utf16_units(source);
        utf16_to_string(&units)
    }

    /// XORs `source` with the keystream of the sound cipher. Applying this
    /// twice gives the input back: see [`lemma_sound_cipher_involution`].
    pub fn apply_sound_cipher(source: &[u8]) -> (r: Vec<u8>)
        ensures
            r@.len() == source@.len(),
            forall|i: int| 0 <= i < r@.len() ==> r@[i] == spec_cipher_byte(source@, i),
    {
        let n = source.len();
        let mut out: Vec<u8> = Vec::with_capacity(n);
        let mut state: u64 = 0x2AF92545ADDE0B65;
        let mut pos: usize = 0;
        while pos < n
            invariant
                n == source@.len(),
                pos <= n,
                pos % 8 == 0 || pos == n,
                out@.len() == pos,
                state == spec_key_state(((pos + 7) / 8) as nat),
                forall|i: int| 0 <= i < pos ==> out@[i] == spec_cipher_byte(source@, i),
            decreases n - pos,
        {
            let ghost block: nat = (pos / 8) as nat;
            proof {
                assert(pos % 8 == 0);
                assert(((pos + 7) / 8) as nat == block);
            }
            state = 0x39BAE3441DB35873u64.wrapping_mul(state.wrapping_add(0x23966BA95E28C33F));
            let low = state % 0x1_0000_0000;
            let high = state / 0x1_0000_0000;
            state = low * 0x1_0000_0000 + high;
            proof {
                assert(state == spec_key_state(block + 1));
            }
            let kb = u64_le_bytes_vec(state);
            let mut k: usize = 0;
            while k < 8 && pos + k < n
                invariant
                    n == source@.len(),
                    pos % 8 == 0,
                    pos <= n,
                    k <= 8,
                    pos + k <= n,
                    out@.len() == pos + k,
                    kb@ == u64_le_bytes(spec_key_state((pos / 8 + 1) as nat)),
                    kb@.len() == 8,
                    forall|i: int| 0 <= i < pos + k ==> out@[i] == spec_cipher_byte(source@, i),
                decreases 8 - k,
            {
                let b = source[pos + k] ^ kb[k];
                proof {
                    assert((pos + k) as nat / 8 == pos / 8 && (pos + k) as nat % 8 == k) by (
                    nonlinear_arith)
                        requires
                            pos % 8 == 0,
                            0 <= k < 8,
                            0 <= pos,
                    ;
                }
                out.push(b);
                k = k + 1;
            }
            pos = pos + k;
            proof {
                assert(pos % 8 == 0 || pos == n);
                assert(((pos + 7) / 8) as nat == block + 1) by (nonlinear_arith)
                    requires
                        pos == 8 * block + k,
                        (k == 8 || pos == n) && 0 < k <= 8,
                ;
            }
        }
        out
    }

    /// Parses a whole archive image: fixed header, then the table of
    /// contents at the offset the header declares.
    #[verifier::loop_isolation(false)]
    pub fn open(data: &[u8]) -> (r: Result<BarFile, BarError>)
        ensures
            bar_result_matches(r, spec_parse_bar(data@)),
    {
        let n = data.len();
        if n < 4 {
            return Err(BarError::UnexpectedEnd);
        }
        let signature = read_u32(data, 0);
        if signature != BINARY_SIGNATURE_BAR {
            return Err(BarError::NotValidBarSignature);
        }
        if n < 8 {
            return Err(BarError::UnexpectedEnd);
        }
        let version = read_u32(data, 4);
        if version != BAR_VERSION_AOE3DE && version != BAR_VERSION_AOE3 {
            return Err(BarError::NotSupportedBarVersion);
        }
        if n < 12 {
            return Err(BarError::UnexpectedEnd);
        }
        let magic = read_u32(data, 8);
        if magic != BINARY_BAR_MAGIC {
            return Err(BarError::NotValidBarMagic);
        }
        if n < 284 {
            return Err(BarError::UnexpectedEnd);
        }
        if version == BAR_VERSION_AOE3 {
            if n < 292 {
                return Err(BarError::UnexpectedEnd);
            }
        } else {
            if n < 304 {
                return Err(BarError::UnexpectedEnd);
            }
        }
        let unk1 = slice_to_vec(slice_subrange(data, 12, 276));
        let unk2 = read_u32(data, 276);
        let file_count = read_u32(data, 280);
        let files_table_offset: u64;
        let unk3: u32;
        let unk4: u32;
        let unk5: u32;
        if version == BAR_VERSION_AOE3 {
            files_table_offset = read_u32(data, 284) as u64;
            unk3 = 0;
            unk4 = read_u32(data, 288);
            unk5 = 0;
        } else {
            unk3 = read_u32(data, 284);
            files_table_offset = read_u64(data, 288);
            unk4 = read_u32(data, 296);
            unk5 = read_u32(data, 300);
        }
        let nu: u64 = n as u64;
        if files_table_offset > nu || nu - files_table_offset < 4 {
            return Err(BarError::UnexpectedEnd);
        }
        let t: usize = files_table_offset as usize;
        let root_path_length = read_u32(data, t);
        if (root_path_length as u64) * 2 > nu - files_table_offset - 4 {
            return Err(BarError::UnexpectedEnd);
        }
        let rl2: usize = ((root_path_length as u64) * 2) as usize;
        let root_path = slice_to_vec(slice_subrange(data, t + 4, t + 4 + rl2));
        let q: usize = t + 4 + rl2;
        if n - q < 4 {
            return Err(BarError::UnexpectedEnd);
        }
        let root_file_count = read_u32(data, q);
        if file_count != root_file_count {
            return Err(BarError::NotMatchedEntryCount);
        }
        let ghost start: int = q + 4;
        let ghost count: nat = root_file_count as nat;
        let mut entries: Vec<BarEntry> = Vec::new();
        let mut pos: usize = q + 4;
        let mut i: u32 = 0;
        while i < root_file_count
            invariant
                n == data@.len(),
                pos <= n,
                i <= root_file_count,
                version == BAR_VERSION_AOE3 || version == BAR_VERSION_AOE3DE,
                count == root_file_count as nat,
                entries@.len() == i,
                match spec_parse_entries(data@, pos as int, (count - i) as nat, version) {
                    Ok((rest, end)) => spec_parse_entries(data@, start, count, version) == Ok::<
                        _,
                        BarError,
                    >((entries@.map_values(|e: BarEntry| e@) + rest, end)),
                    Err(e) => spec_parse_entries(data@, start, count, version) == Err::<
                        (Seq<BarEntrySpec>, int),
                        _,
                    >(e),
                },
            decreases root_file_count - i,
        {
            let ghost entries_old = entries@;
            let ghost remaining: nat = (count - i) as nat;
            match parse_entry(data, pos, version) {
                Err(e) => {
                    proof {
                        assert(spec_parse_entries(data@, pos as int, remaining, version) == Err::<
                            (Seq<BarEntrySpec>, int),
                            _,
                        >(e));
                    }
                    return Err(e);
                },
                Ok((entry, next)) => {
                    proof {
                        let (es, ns) = spec_parse_entry(data@, pos as int, version).unwrap();
                        match spec_parse_entries(data@, ns, (remaining - 1) as nat, version) {
                            Ok((rest, end)) => {
                                assert(spec_parse_entries(data@, pos as int, remaining, version)
                                    == Ok::<_, BarError>((seq![es] + rest, end)));
                                assert((entries_old.map_values(|e: BarEntry| e@) + (seq![es]
                                    + rest)) =~= (entries_old.push(entry).map_values(
                                    |e: BarEntry| e@,
                                ) + rest));
                            },
                            Err(e2) => {
                                assert(spec_parse_entries(data@, pos as int, remaining, version)
                                    == Err::<(Seq<BarEntrySpec>, int), _>(e2));
                            },
                        }
                    }
                    entries.push(entry);
                    pos = next;
                    i = i + 1;
                },
            }
        }
        let bar = BarFile {
            signature,
            version,
            magic,
            unk1,
            unk2,
            file_count,
            unk3,
            files_table_offset,
            unk4,
            unk5,
            root_path_length,
            root_path,
            root_file_count,
            entries,
        };
        proof {
            let s = spec_parse_bar(data@).unwrap();
            assert(spec_parse_entries(data@, pos as int, 0, version) == Ok::<_, BarError>((
                Seq::<BarEntrySpec>::empty(),
                pos as int,
            )));
            assert(bar@.entries + Seq::<BarEntrySpec>::empty() =~= bar@.entries);
            assert(bar@.unk1 =~= s.unk1);
            assert(bar@.root_path =~= s.root_path);
            assert(bar@ =~= s);
        }
        Ok(bar)
    }

    /// Deobfuscates an encoded sound entry and checks the RIFF signature of
    /// the result.
    pub fn decode_sound(source: &[u8]) -> (r: Result<Vec<u8>, BarError>)
        requires
            source@.len() >= 4,
        ensures
            r is Ok <==> le32_at(
                Seq::new(source@.len(), |i: int| spec_cipher_byte(source@, i)),
                0,
            ) == BINARY_SIGNATURE_WAV_DECODED,
            r is Ok ==> r.unwrap()@ == Seq::new(
                source@.len(),
                |i: int| spec_cipher_byte(source@, i),
            ),
            r is Err ==> r.unwrap_err() == BarError::NotValidDecodedWavSignature,
    {
        let decoded = BarFile::apply_sound_cipher(source);
        proof {
            assert(decoded@ =~= Seq::new(source@.len(), |i: int| spec_cipher_byte(source@, i)));
        }
        let signature = get_file_signature(decoded.as_slice(), 4);
        if signature == BINARY_SIGNATURE_WAV_DECODED {
            Ok(decoded)
        } else {
            Err(BarError::NotValidDecodedWavSignature)
        }
    }
}

/// A file to be packed into an archive: its relative name as UTF-16LE bytes
/// and its raw contents.
pub struct BarSourceFile {
    pub file_name: Vec<u8>,
    pub data: Vec<u8>,
}

/// The mathematical image of a [`BarSourceFile`].
#[verifier::ext_equal]
pub ghost struct SourceSpec {
    pub file_name: Seq<u8>,
    pub data: Seq<u8>,
}

impl View for BarSourceFile {
    type V = SourceSpec;

    open spec fn view(&self) -> SourceSpec {
        SourceSpec { file_name: self.file_name@, data: self.data@ }
    }
}

/// The images of a list of source files.
pub open spec fn spec_sources(files: Seq<BarSourceFile>) -> Seq<SourceSpec> {
    files.map_values(|f: BarSourceFile| f@)
}

/// The fixed archive header of a dialect, as written by the archive writer:
/// reserved fields are zero.
pub open spec fn spec_header_bytes(version: u32, file_count: u32, toc_offset: u64) -> Seq<u8> {
    if version == BAR_VERSION_AOE3 {
        u32_le_bytes(BINARY_SIGNATURE_BAR) + u32_le_bytes(version)
            + u32_le_bytes(BINARY_BAR_MAGIC) + spec_zero_bytes(264) + u32_le_bytes(
            0,
        ) + u32_le_bytes(file_count) + u32_le_bytes(
            (toc_offset % 0x1_0000_0000) as u32,
        ) + u32_le_bytes(0)
    } else {
        u32_le_bytes(BINARY_SIGNATURE_BAR) + u32_le_bytes(version)
            + u32_le_bytes(BINARY_BAR_MAGIC) + spec_zero_bytes(264) + u32_le_bytes(
            0,
        ) + u32_le_bytes(file_count) + u32_le_bytes(0) + u64_le_bytes(
            toc_offset,
        ) + u32_le_bytes(0) + u32_le_bytes(0)
    }
}

/// One table-of-contents entry in a dialect's on-wire layout.
#[verifier::opaque]
pub open spec fn spec_entry_bytes(version: u32, e: BarEntrySpec) -> Seq<u8> {
    if version == BAR_VERSION_AOE3 {
        u32_le_bytes((e.offset % 0x1_0000_0000) as u32) + u32_le_bytes(
            e.file_size1,
        ) + u32_le_bytes(e.file_size2) + u16_le_bytes(e.year)
            + u16_le_bytes(e.month) + u16_le_bytes(e.day_of_week)
            + u16_le_bytes(e.day) + u16_le_bytes(e.hour) + u16_le_bytes(
            e.minute,
        ) + u16_le_bytes(e.second) + u16_le_bytes(e.msecond)
            + u32_le_bytes(e.file_name_length) + e.file_name
    } else {
        u64_le_bytes(e.offset) + u32_le_bytes(e.file_size1) + u32_le_bytes(
            e.file_size2,
        ) + u32_le_bytes(e.file_size3) + u32_le_bytes(e.file_name_length)
            + e.file_name + u32_le_bytes(e.is_encoded)
    }
}

/// The table-of-contents entries, one after the other.
pub open spec fn spec_entries_bytes(version: u32, entries: Seq<BarEntrySpec>) -> Seq<u8>
    decreases entries.len(),
{
    if entries.len() == 0 {
        Seq::empty()
    } else {
        spec_entry_bytes(version, entries[0]) + spec_entries_bytes(version, entries.skip(1))
    }
}

/// The entry payloads, one after the other.
pub open spec fn spec_payload_bytes(files: Seq<SourceSpec>) -> Seq<u8>
    decreases files.len(),
{
    if files.len() == 0 {
        Seq::empty()
    } else {
        files[0].data + spec_payload_bytes(files.skip(1))
    }
}

/// The number of payload bytes the files contribute.
pub open spec fn spec_total_payload(files: Seq<SourceSpec>) -> int
    decreases files.len(),
{
    if files.len() == 0 {
        0
    } else {
        files[0].data.len() + spec_total_payload(files.skip(1))
    }
}

pub proof fn lemma_total_payload_nonneg(files: Seq<SourceSpec>)
    ensures
        spec_total_payload(files) >= 0,
    decreases files.len(),
{
    if files.len() > 0 {
        lemma_total_payload_nonneg(files.skip(1));
    }
}

/// The table of contents: root path, file count, entries.
pub open spec fn spec_toc_bytes(b: BarSpec) -> Seq<u8> {
    u32_le_bytes(b.root_path_length) + b.root_path + u32_le_bytes(
        b.root_file_count,
    ) + spec_entries_bytes(b.version, b.entries)
}

/// The entry the archive writer records for one source file placed at
/// absolute position `off`.
pub open spec fn spec_create_entry(f: SourceSpec, version: u32, off: int) -> BarEntrySpec {
    BarEntrySpec {
        offset: off as u64,
        file_size1: if version == BAR_VERSION_AOE3 {
            f.data.len() as u32
        } else {
            0
        },
        file_size2: f.data.len() as u32,
        file_size3: f.data.len() as u32,
        year: 0,
        month: 0,
        day_of_week: 0,
        day: 0,
        hour: 0,
        minute: 0,
        second: 0,
        msecond: 0,
        file_name_length: (f.file_name.len() / 2) as u32,
        file_name: f.file_name,
        is_encoded: spec_encoding_class(le32_at(f.data, 0)),
    }
}

/// The entries the archive writer records: consecutive payloads starting at
/// position `off`.
pub open spec fn spec_create_entries(files: Seq<SourceSpec>, version: u32, off: int) -> Seq<
    BarEntrySpec,
>
    decreases files.len(),
{
    if files.len() == 0 {
        Seq::empty()
    } else {
        seq![spec_create_entry(files[0], version, off)] + spec_create_entries(
            files.skip(1),
            version,
            off + files[0].data.len(),
        )
    }
}

/// The archive the writer produces for the given files, root path and
/// dialect.
pub open spec fn spec_create_bar(files: Seq<SourceSpec>, root_path: Seq<u8>, version: u32)
    -> BarSpec {
    let toc_offset = spec_header_len(version) + spec_total_payload(files);
    BarSpec {
        signature: BINARY_SIGNATURE_BAR,
        version,
        magic: BINARY_BAR_MAGIC,
        unk1: spec_zero_bytes(264),
        unk2: 0,
        file_count: files.len() as u32,
        unk3: 0,
        files_table_offset: toc_offset as u64,
        unk4: 0,
        unk5: 0,
        root_path_length: (root_path.len() / 2) as u32,
        root_path,
        root_file_count: files.len() as u32,
        entries: spec_create_entries(files, version, spec_header_len(version)),
    }
}

/// The full archive image the writer produces: header, payloads, table of
/// contents.
pub open spec fn spec_create_bar_bytes(
    files: Seq<SourceSpec>,
    root_path: Seq<u8>,
    version: u32,
) -> Seq<u8> {
    let b = spec_create_bar(files, root_path, version);
    spec_header_bytes(version, b.file_count, b.files_table_offset) + spec_payload_bytes(files)
        + spec_toc_bytes(b)
}

/// Appends one table-of-contents entry in the dialect's layout.
fn push_entry(out: &mut Vec<u8>, e: &BarEntry, version: u32)
    ensures
        final(out)@ == old(out)@ + spec_entry_bytes(version, e@),
{
    if version == BAR_VERSION_AOE3 {
        push_u32(out, (e.offset % 0x1_0000_0000) as u32);
        push_u32(out, e.file_size1);
        push_u32(out, e.file_size2);
        push_u16(out, e.year);
        push_u16(out, e.month);
        push_u16(out, e.day_of_week);
        push_u16(out, e.day);
        push_u16(out, e.hour);
        push_u16(out, e.minute);
        push_u16(out, e.second);
        push_u16(out, e.msecond);
        push_u32(out, e.file_name_length);
        let mut name = e.file_name.clone();
        out.append(&mut name);
        assert(final(out)@ =~= old(out)@ + spec_entry_bytes(version, e@)) by {
            reveal(spec_entry_bytes);
        }
    } else {
        push_u64(out, e.offset);
        push_u32(out, e.file_size1);
        push_u32(out, e.file_size2);
        push_u32(out, e.file_size3);
        push_u32(out, e.file_name_length);
        let mut name = e.file_name.clone();
        out.append(&mut name);
        push_u32(out, e.is_encoded);
        assert(final(out)@ =~= old(out)@ + spec_entry_bytes(version, e@)) by {
            reveal(spec_entry_bytes);
        }
    }
}


/// Sums the payload sizes of the files.
fn total_payload(files: &Vec<BarSourceFile>) -> (r: u64)
    requires
        spec_total_payload(spec_sources(files@)) <= u64::MAX,
    ensures
        r == spec_total_payload(spec_sources(files@)),
{
    let ghost fs = spec_sources(files@);
    let n = files.len();
    let mut total: u64 = 0;
    let mut i: usize = 0;
    proof {
        assert(fs.skip(0) =~= fs);
    }
    while i < n
        invariant
            fs == spec_sources(files@),
            n == fs.len(),
            i <= n,
            spec_total_payload(fs) <= u64::MAX,
            total + spec_total_payload(fs.skip(i as int)) == spec_total_payload(fs),
        decreases n - i,
    {
        proof {
            assert(fs.skip(i as int)[0] == fs[i as int]);
            assert(fs.skip(i as int).skip(1) =~= fs.skip(i as int + 1));
            lemma_total_payload_nonneg(fs.skip(i as int + 1));
        }
        total = total + files[i].data.len() as u64;
        i = i + 1;
    }
    proof {
        assert(fs.skip(n as int) =~= Seq::<SourceSpec>::empty());
    }
    total
}

/// Appends the fixed archive header of a dialect.
fn push_header(out: &mut Vec<u8>, version: u32, file_count: u32, toc_offset: u64)
    requires
        version == BAR_VERSION_AOE3 || version == BAR_VERSION_AOE3DE,
    ensures
        final(out)@ == old(out)@ + spec_header_bytes(version, file_count, toc_offset),
{
    push_u32(out, BINARY_SIGNATURE_BAR);
    push_u32(out, version);
    push_u32(out, BINARY_BAR_MAGIC);
    let mut z = zero_bytes(264);
    out.append(&mut z);
    push_u32(out, 0);
    push_u32(out, file_count);
    if version == BAR_VERSION_AOE3 {
        push_u32(out, (toc_offset % 0x1_0000_0000) as u32);
        push_u32(out, 0);
    } else {
        push_u32(out, 0);
        push_u64(out, toc_offset);
        push_u32(out, 0);
        push_u32(out, 0);
    }
    assert(final(out)@ =~= old(out)@ + spec_header_bytes(version, file_count, toc_offset));
}

/// Appends every payload, one after the other.
fn push_payloads(out: &mut Vec<u8>, files: &Vec<BarSourceFile>)
    ensures
        final(out)@ == old(out)@ + spec_payload_bytes(spec_sources(files@)),
{
    let ghost fs = spec_sources(files@);
    let n = files.len();
    let mut i: usize = 0;
    proof {
        assert(fs.skip(0) =~= fs);
    }
    while i < n
        invariant
            fs == spec_sources(files@),
            n == fs.len(),
            i <= n,
            out@ + spec_payload_bytes(fs.skip(i as int)) == old(out)@ + spec_payload_bytes(fs),
        decreases n - i,
    {
        proof {
            assert(fs.skip(i as int)[0] == fs[i as int]);
            assert(fs.skip(i as int).skip(1) =~= fs.skip(i as int + 1));
        }
        let ghost out_prev = out@;
        let mut d = files[i].data.clone();
        proof {
            assert(d@ =~= fs[i as int].data);
        }
        out.append(&mut d);
        proof {
            assert(out_prev + spec_payload_bytes(fs.skip(i as int)) =~= out@
                + spec_payload_bytes(fs.skip(i as int + 1)));
        }
        i = i + 1;
    }
    proof {
        assert(fs.skip(n as int) =~= Seq::<SourceSpec>::empty());
        assert(out@ + Seq::<u8>::empty() =~= out@);
    }
}

/// Builds the table-of-contents entries that the writer records for the
/// files: consecutive offsets from the end of the header, sizes from the
/// payloads, encoding class from each payload's leading signature.
fn build_entries(files: &Vec<BarSourceFile>, version: u32, header_len: u64) -> (r: Vec<BarEntry>)
    requires
        forall|i: int|
            0 <= i < files@.len() ==> {
                &&& (#[trigger] files@[i]).data@.len() >= 4
                &&& files@[i].data@.len() <= u32::MAX
                &&& files@[i].file_name@.len() % 2 == 0
                &&& files@[i].file_name@.len() / 2 <= u32::MAX
            },
        header_len + spec_total_payload(spec_sources(files@)) <= u64::MAX,
    ensures
        r@.map_values(|e: BarEntry| e@) == spec_create_entries(
            spec_sources(files@),
            version,
            header_len as int,
        ),
{
    let ghost fs = spec_sources(files@);
    let n = files.len();
    let mut entries: Vec<BarEntry> = Vec::new();
    let mut off: u64 = header_len;
    let mut i: usize = 0;
    proof {
        assert(fs.skip(0) =~= fs);
        assert(Seq::<BarEntry>::empty().map_values(|e: BarEntry| e@) + spec_create_entries(
            fs,
            version,
            header_len as int,
        ) =~= spec_create_entries(fs, version, header_len as int));
    }
    while i < n
        invariant
            fs == spec_sources(files@),
            n == fs.len(),
            i <= n,
            entries@.len() == i,
            forall|j: int|
                0 <= j < files@.len() ==> {
                    &&& (#[trigger] files@[j]).data@.len() >= 4
                    &&& files@[j].data@.len() <= u32::MAX
                    &&& files@[j].file_name@.len() % 2 == 0
                    &&& files@[j].file_name@.len() / 2 <= u32::MAX
                },
            header_len + spec_total_payload(fs) <= u64::MAX,
            off + spec_total_payload(fs.skip(i as int)) == header_len + spec_total_payload(fs),
            entries@.map_values(|e: BarEntry| e@) + spec_create_entries(
                fs.skip(i as int),
                version,
                off as int,
            ) == spec_create_entries(fs, version, header_len as int),
        decreases n - i,
    {
        proof {
            assert(fs[i as int] == files@[i as int]@);
            assert(fs.skip(i as int)[0] == fs[i as int]);
            assert(fs.skip(i as int).skip(1) =~= fs.skip(i as int + 1));
            lemma_total_payload_nonneg(fs.skip(i as int + 1));
        }
        let f = &files[i];
        let size: u32 = f.data.len() as u32;
        let signature = read_u32(f.data.as_slice(), 0);
        let class: u32 = if signature == BINARY_SIGNATURE_ALZ4 || signature
            == BINARY_SIGNATURE_L33T {
            ENCODE_TYPE_ALZ4_L33T
        } else if signature == BINARY_SIGNATURE_WAV_ENCODED {
            ENCODE_TYPE_SND
        } else {
            ENCODE_TYPE_NONE
        };
        let entry = BarEntry {
            offset: off,
            file_size1: if version == BAR_VERSION_AOE3 {
                size
            } else {
                0
            },
            file_size2: size,
            file_size3: size,
            year: 0,
            month: 0,
            day_of_week: 0,
            day: 0,
            hour: 0,
            minute: 0,
            second: 0,
            msecond: 0,
            file_name_length: (f.file_name.len() / 2) as u32,
            file_name: f.file_name.clone(),
            is_encoded: class,
        };
        proof {
            assert(entry@ =~= spec_create_entry(fs[i as int], version, off as int));
            assert(spec_create_entries(fs.skip(i as int), version, off as int) =~= seq![
                spec_create_entry(fs[i as int], version, off as int),
            ] + spec_create_entries(
                fs.skip(i as int + 1),
                version,
                off + fs[i as int].data.len(),
            ));
            assert((entries@.push(entry)).map_values(|e: BarEntry| e@) =~= entries@.map_values(
                |e: BarEntry| e@,
            ).push(entry@));
            assert(entries@.map_values(|e: BarEntry| e@).push(entry@) + spec_create_entries(
                fs.skip(i as int + 1),
                version,
                off + fs[i as int].data.len(),
            ) =~= entries@.map_values(|e: BarEntry| e@) + spec_create_entries(
                fs.skip(i as int),
                version,
                off as int,
            ));
        }
        entries.push(entry);
        off = off + size as u64;
        i = i + 1;
    }
    proof {
        assert(fs.skip(n as int) =~= Seq::<SourceSpec>::empty());
        assert(spec_create_entries(Seq::<SourceSpec>::empty(), version, off as int) =~= Seq::<
            BarEntrySpec,
        >::empty());
        assert(entries@.map_values(|e: BarEntry| e@) + Seq::<BarEntrySpec>::empty()
            =~= entries@.map_values(|e: BarEntry| e@));
    }
    entries
}

/// Appends every table-of-contents entry in the dialect's layout.
fn push_entries(out: &mut Vec<u8>, entries: &Vec<BarEntry>, version: u32)
    ensures
        final(out)@ == old(out)@ + spec_entries_bytes(
            version,
            entries@.map_values(|e: BarEntry| e@),
        ),
{
    let n = entries.len();
    let ghost es = entries@.map_values(|e: BarEntry| e@);
    let mut i: usize = 0;
    proof {
        assert(es.skip(0) =~= es);
    }
    while i < n
        invariant
            n == entries@.len(),
            i <= n,
            es == entries@.map_values(|e: BarEntry| e@),
            out@ + spec_entries_bytes(version, es.skip(i as int)) == old(out)@
                + spec_entries_bytes(version, es),
        decreases n - i,
    {
        proof {
            assert(es.skip(i as int)[0] == es[i as int]);
            assert(es.skip(i as int).skip(1) =~= es.skip(i as int + 1));
        }
        let ghost out_prev = out@;
        push_entry(out, &entries[i], version);
        proof {
            assert(out_prev + spec_entries_bytes(version, es.skip(i as int)) =~= out@
                + spec_entries_bytes(version, es.skip(i as int + 1)));
        }
        i = i + 1;
    }
    proof {
        assert(es.skip(n as int) =~= Seq::<BarEntrySpec>::empty());
        assert(out@ + Seq::<u8>::empty() =~= out@);
    }
}

impl BarFile {
    /// Builds an archive from an ordered list of files: the parsed form and
    /// the complete on-wire image, with payloads placed one after the other
    /// and the table of contents after them.
    #[verifier::rlimit(60)]
    pub fn create(files: &Vec<BarSourceFile>, root_path: &Vec<u8>, version: u32) -> (r: (
        BarFile,
        Vec<u8>,
    ))
        requires
            version == BAR_VERSION_AOE3 || version == BAR_VERSION_AOE3DE,
            files@.len() <= u32::MAX,
            root_path@.len() % 2 == 0,
            root_path@.len() / 2 <= u32::MAX,
            forall|i: int|
                0 <= i < files@.len() ==> {
                    &&& (#[trigger] files@[i]).data@.len() >= 4
                    &&& files@[i].data@.len() <= u32::MAX
                    &&& files@[i].file_name@.len() % 2 == 0
                    &&& files@[i].file_name@.len() / 2 <= u32::MAX
                },
            version == BAR_VERSION_AOE3 ==> spec_header_len(version) + spec_total_payload(
                spec_sources(files@),
            ) <= u32::MAX,
            spec_header_len(version) + spec_total_payload(spec_sources(files@)) <= u64::MAX,
        ensures
            r.0@ == spec_create_bar(spec_sources(files@), root_path@, version),
            r.1@ == spec_create_bar_bytes(spec_sources(files@), root_path@, version),
    {
        proof {
            lemma_total_payload_nonneg(spec_sources(files@));
        }
        let file_count: u32 = files.len() as u32;
        let header_len: u64 = if version == BAR_VERSION_AOE3 {
            292
        } else {
            304
        };
        let total: u64 = total_payload(files);
        let toc_offset: u64 = header_len + total;

        let mut out: Vec<u8> = Vec::new();
        push_header(&mut out, version, file_count, toc_offset);
        push_payloads(&mut out, files);
        let root_path_length: u32 = (root_path.len() / 2) as u32;
        push_u32(&mut out, root_path_length);
        let mut root = root_path.clone();
        proof {
            assert(root@ =~= root_path@);
        }
        out.append(&mut root);
        push_u32(&mut out, file_count);
        let entries = build_entries(files, version, header_len);
        push_entries(&mut out, &entries, version);

        let bar = BarFile {
            signature: BINARY_SIGNATURE_BAR,
            version,
            magic: BINARY_BAR_MAGIC,
            unk1: zero_bytes(264),
            unk2: 0,
            file_count,
            unk3: 0,
            files_table_offset: toc_offset,
            unk4: 0,
            unk5: 0,
            root_path_length,
            root_path: root_path.clone(),
            root_file_count: file_count,
            entries,
        };
        proof {
            assert(bar.root_path@ =~= root_path@);
            assert(bar@ =~= spec_create_bar(spec_sources(files@), root_path@, version));
            assert(out@ =~= spec_create_bar_bytes(spec_sources(files@), root_path@, version));
        }
        (bar, out)
    }
}

/// The raw bytes of an entry's payload within the archive image.
pub open spec fn spec_entry_payload(d: Seq<u8>, e: BarEntrySpec) -> Seq<u8> {
    d.subrange(e.offset as int, e.offset + e.file_size2)
}

impl BarEntry {
    /// Cuts this entry's payload out of the archive image; nothing when the
    /// declared range runs past the end of the image.
    pub fn read_payload(&self, data: &[u8]) -> (r: Option<Vec<u8>>)
        ensures
            r is Some <==> self.offset + self.file_size2 <= data@.len(),
            r is Some ==> r.unwrap()@ == spec_entry_payload(data@, self@),
    {
        let n = data.len();
        if self.offset <= n as u64 && self.file_size2 as u64 <= n as u64 - self.offset {
            let start = self.offset as usize;
            let end = start + self.file_size2 as usize;
            Some(slice_to_vec(slice_subrange(data, start, end)))
        } else {
            None
        }
    }
}

/// The sound cipher applied to a whole byte sequence.
pub open spec fn spec_cipher_seq(s: Seq<u8>) -> Seq<u8> {
    Seq::new(s.len(), |i: int| spec_cipher_byte(s, i))
}

/// The sound cipher undoes itself: applying the keystream twice gives the
/// input back, whatever its length.
pub proof fn lemma_sound_cipher_involution(s: Seq<u8>)
    ensures
        spec_cipher_seq(spec_cipher_seq(s)) == s,
{
    let once = spec_cipher_seq(s);
    let twice = spec_cipher_seq(once);
    assert forall|i: int| 0 <= i < s.len() implies twice[i] == s[i] by {
        let k = spec_key_byte(i as nat);
        let a = s[i];
        assert(((a ^ k) ^ k) == a) by (bit_vector);
    }
    assert(twice =~= s);
}

/// A payload that begins with the encoded-WAV signature deciphers to one that
/// begins with the RIFF magic.
#[verifier::rlimit(100)]
pub proof fn lemma_sound_cipher_signature(s: Seq<u8>)
    requires
        s.len() >= 4,
        le32_at(s, 0) == BINARY_SIGNATURE_WAV_ENCODED,
    ensures
        le32_at(spec_cipher_seq(s), 0) == BINARY_SIGNATURE_WAV_DECODED,
{
    reveal(le32_at);
    reveal_with_fuel(spec_key_state, 2);
    assert(u64_specs::wrapping_add(0x2AF92545ADDE0B65, 0x23966BA95E28C33F)
        == 0x4E8F90EF0C06CEA4u64);
    assert(u64_specs::wrapping_mul(0x39BAE3441DB35873, 0x4E8F90EF0C06CEA4)
        == 0xF204C53FCEC333ACu64) by (nonlinear_arith);
    assert(spec_rotl32(0xF204C53FCEC333AC) == 0xCEC333ACF204C53Fu64);
    assert(spec_key_state(1) == 0xCEC333ACF204C53Fu64);
    assert(spec_key_byte(0) == 0x3F && spec_key_byte(1) == 0xC5 && spec_key_byte(2) == 0x04
        && spec_key_byte(3) == 0xF2);
    let s0 = s[0];
    let s1 = s[1];
    let s2 = s[2];
    let s3 = s[3];
    assert((s0 + s1 * 0x100 + s2 * 0x1_0000 + s3 * 0x100_0000) as u32 == 0xB4428C6Du32 ==> s0
        == 0x6D && s1 == 0x8C && s2 == 0x42 && s3 == 0xB4) by (bit_vector);
    assert(spec_cipher_seq(s)[0] == (0x6Du8 ^ 0x3Fu8));
    assert(spec_cipher_seq(s)[1] == (0x8Cu8 ^ 0xC5u8));
    assert(spec_cipher_seq(s)[2] == (0x42u8 ^ 0x04u8));
    assert(spec_cipher_seq(s)[3] == (0xB4u8 ^ 0xF2u8));
    assert((0x6Du8 ^ 0x3Fu8) == 0x52u8 && (0x8Cu8 ^ 0xC5u8) == 0x49u8 && (0x42u8 ^ 0x04u8) == 0x46u8
        && (0xB4u8 ^ 0xF2u8) == 0x46u8) by (bit_vector);
    assert((0x52u8 + 0x49u8 * 0x100 + 0x46u8 * 0x1_0000 + 0x46u8 * 0x100_0000) as u32
        == 0x46464952u32);
}

/// The entries of a writer run are as many as the files.
pub proof fn lemma_create_entries_len(files: Seq<SourceSpec>, version: u32, off: int)
    ensures
        spec_create_entries(files, version, off).len() == files.len(),
    decreases files.len(),
{
    if files.len() > 0 {
        lemma_create_entries_len(files.skip(1), version, off + files[0].data.len());
    }
}

/// The payload total splits at any point.
pub proof fn lemma_total_payload_split(files: Seq<SourceSpec>, i: int)
    requires
        0 <= i <= files.len(),
    ensures
        spec_total_payload(files) == spec_total_payload(files.take(i)) + spec_total_payload(
            files.skip(i),
        ),
    decreases i,
{
    if i == 0 {
        assert(files.take(0) =~= Seq::<SourceSpec>::empty());
        assert(files.skip(0) =~= files);
    } else {
        let f1 = files.skip(1);
        lemma_total_payload_split(f1, i - 1);
        assert(files.take(i)[0] == files[0]);
        assert(files.take(i).skip(1) =~= f1.take(i - 1));
        assert(files.skip(i) =~= f1.skip(i - 1));
    }
}

/// The payload total grows by one file's size at each step.
pub proof fn lemma_total_payload_take_step(files: Seq<SourceSpec>, i: int)
    requires
        0 <= i < files.len(),
    ensures
        spec_total_payload(files.take(i + 1)) == spec_total_payload(files.take(i))
            + files[i].data.len(),
    decreases i,
{
    if i == 0 {
        assert(files.take(0) =~= Seq::<SourceSpec>::empty());
        assert(files.take(1)[0] == files[0]);
        assert(files.take(1).skip(1) =~= Seq::<SourceSpec>::empty());
    } else {
        let f1 = files.skip(1);
        lemma_total_payload_take_step(f1, i - 1);
        assert(files.take(i + 1)[0] == files[0]);
        assert(files.take(i + 1).skip(1) =~= f1.take(i));
        assert(files.take(i)[0] == files[0]);
        assert(files.take(i).skip(1) =~= f1.take(i - 1));
        assert(f1[i - 1] == files[i]);
    }
}

/// Entry `i` of a writer run sits at the end of the header plus the payloads
/// before it.
pub proof fn lemma_create_entries_index(files: Seq<SourceSpec>, version: u32, off: int, i: int)
    requires
        0 <= i < files.len(),
    ensures
        spec_create_entries(files, version, off)[i] == spec_create_entry(
            files[i],
            version,
            off + spec_total_payload(files.take(i)),
        ),
    decreases i,
{
    lemma_create_entries_len(files.skip(1), version, off + files[0].data.len());
    if i == 0 {
        assert(files.take(0) =~= Seq::<SourceSpec>::empty());
    } else {
        let f1 = files.skip(1);
        lemma_create_entries_index(f1, version, off + files[0].data.len(), i - 1);
        assert(f1[i - 1] == files[i]);
        assert(files.take(i)[0] == files[0]);
        assert(files.take(i).skip(1) =~= f1.take(i - 1));
    }
}

/// The payload region is exactly as long as the payload total.
pub proof fn lemma_payload_bytes_len(files: Seq<SourceSpec>)
    ensures
        spec_payload_bytes(files).len() == spec_total_payload(files),
    decreases files.len(),
{
    if files.len() > 0 {
        lemma_payload_bytes_len(files.skip(1));
    }
}

/// File `i`'s bytes sit in the payload region right after the payloads
/// before it.
pub proof fn lemma_payload_bytes_at(files: Seq<SourceSpec>, i: int)
    requires
        0 <= i < files.len(),
    ensures
        spec_payload_bytes(files).subrange(
            spec_total_payload(files.take(i)),
            spec_total_payload(files.take(i)) + files[i].data.len(),
        ) == files[i].data,
    decreases i,
{
    lemma_payload_bytes_len(files);
    lemma_payload_bytes_len(files.skip(1));
    lemma_total_payload_split(files, i);
    lemma_total_payload_nonneg(files.take(i));
    lemma_total_payload_nonneg(files.skip(i));
    if i == 0 {
        assert(files.take(0) =~= Seq::<SourceSpec>::empty());
        assert(spec_payload_bytes(files).subrange(0, files[0].data.len() as int)
            =~= files[0].data);
    } else {
        let f1 = files.skip(1);
        lemma_payload_bytes_at(f1, i - 1);
        assert(f1[i - 1] == files[i]);
        assert(files.take(i)[0] == files[0]);
        assert(files.take(i).skip(1) =~= f1.take(i - 1));
        lemma_total_payload_nonneg(f1.take(i - 1));
        let ps = spec_total_payload(f1.take(i - 1));
        let l0 = files[0].data.len() as int;
        lemma_total_payload_split(f1, i - 1);
        lemma_total_payload_nonneg(f1.skip(i - 1));
        assert(f1.skip(i - 1)[0] == files[i]);
        assert(f1.skip(i - 1).skip(1) =~= f1.skip(i));
        lemma_total_payload_nonneg(f1.skip(i));
        assert(spec_total_payload(f1.skip(i - 1)) == files[i].data.len() + spec_total_payload(
            f1.skip(i),
        ));
        lemma_total_payload_nonneg(f1.take(i - 1));
        assert(ps + files[i].data.len() <= spec_total_payload(f1));
        assert(spec_payload_bytes(files).subrange(l0 + ps, l0 + ps + files[i].data.len() as int)
            =~= spec_payload_bytes(f1).subrange(ps, ps + files[i].data.len() as int));
    }
}

/// The sources that raw extraction recovers from an archive image: each
/// entry's name with the bytes its table-of-contents range selects.
pub open spec fn spec_extracted_sources(d: Seq<u8>, entries: Seq<BarEntrySpec>) -> Seq<
    SourceSpec,
> {
    entries.map_values(
        |e: BarEntrySpec| SourceSpec { file_name: e.file_name, data: spec_entry_payload(d, e) },
    )
}

/// The header region is exactly as long as the dialect's header.
pub proof fn lemma_header_bytes_len(version: u32, file_count: u32, toc_offset: u64)
    ensures
        spec_header_bytes(version, file_count, toc_offset).len() == spec_header_len(version),
{
}

/// One entry of the rebuilt archive: same name, same payload bytes, placed
/// at the end of the new header plus the payloads before it.
pub proof fn lemma_archive_round_trip_entry(
    d: Seq<u8>,
    b: BarSpec,
    files: Seq<SourceSpec>,
    b2: BarSpec,
    bytes2: Seq<u8>,
    version2: u32,
    i: int,
)
    requires
        spec_parse_bar(d) == Ok::<BarSpec, BarError>(b),
        version2 == BAR_VERSION_AOE3 || version2 == BAR_VERSION_AOE3DE,
        forall|j: int|
            0 <= j < b.entries.len() ==> (#[trigger] b.entries[j]).offset + b.entries[j].file_size2
                <= d.len() && b.entries[j].file_size2 >= 4,
        files == spec_extracted_sources(d, b.entries),
        b2 == spec_create_bar(files, b.root_path, version2),
        bytes2 == spec_create_bar_bytes(files, b.root_path, version2),
        spec_header_len(version2) + spec_total_payload(files) <= u64::MAX,
        0 <= i < b.entries.len(),
    ensures
        b2.entries.len() == b.entries.len(),
        b2.entries[i].file_name == b.entries[i].file_name,
        spec_entry_payload(bytes2, b2.entries[i]) == spec_entry_payload(d, b.entries[i]),
        b2.entries[i].offset == spec_header_len(version2) + spec_total_payload(files.take(i)),
        b2.entries[i].file_size2 == b.entries[i].file_size2,
{
    let hl = spec_header_len(version2);
    lemma_create_entries_len(files, version2, hl);
    lemma_payload_bytes_len(files);
    lemma_total_payload_nonneg(files);
    lemma_header_bytes_len(version2, b2.file_count, b2.files_table_offset);
    let pay = spec_payload_bytes(files);
    lemma_create_entries_index(files, version2, hl, i);
    lemma_total_payload_split(files, i);
    lemma_total_payload_nonneg(files.take(i));
    lemma_total_payload_nonneg(files.skip(i));
    lemma_total_payload_take_step(files, i);
    lemma_total_payload_nonneg(files.skip(i + 1));
    lemma_total_payload_split(files, i + 1);
    lemma_payload_bytes_at(files, i);
    let ps = spec_total_payload(files.take(i));
    let li = files[i].data.len() as int;
    assert(li == b.entries[i].file_size2);
    assert(ps + li <= spec_total_payload(files));
    assert(b2.entries[i] == spec_create_entry(files[i], version2, hl + ps));
    assert(bytes2.subrange(hl + ps, hl + ps + li) =~= pay.subrange(ps, ps + li));
    assert(spec_entry_payload(bytes2, b2.entries[i]) == bytes2.subrange(hl + ps, hl + ps + li));
}

/// Opening a valid archive, extracting every entry's raw bytes, and building
/// a new archive from what was extracted gives entries that carry the same
/// names and the same payload bytes, in the same order, at strictly
/// increasing offsets.
pub proof fn lemma_archive_round_trip(
    d: Seq<u8>,
    b: BarSpec,
    files: Seq<SourceSpec>,
    b2: BarSpec,
    bytes2: Seq<u8>,
    version2: u32,
)
    requires
        spec_parse_bar(d) == Ok::<BarSpec, BarError>(b),
        version2 == BAR_VERSION_AOE3 || version2 == BAR_VERSION_AOE3DE,
        forall|i: int|
            0 <= i < b.entries.len() ==> (#[trigger] b.entries[i]).offset + b.entries[i].file_size2
                <= d.len() && b.entries[i].file_size2 >= 4,
        files == spec_extracted_sources(d, b.entries),
        b2 == spec_create_bar(files, b.root_path, version2),
        bytes2 == spec_create_bar_bytes(files, b.root_path, version2),
        spec_header_len(version2) + spec_total_payload(files) <= u64::MAX,
    ensures
        b2.entries.len() == b.entries.len(),
        forall|i: int|
            0 <= i < b.entries.len() ==> (#[trigger] b2.entries[i]).file_name
                == b.entries[i].file_name,
        forall|i: int|
            0 <= i < b.entries.len() ==> spec_entry_payload(bytes2, #[trigger] b2.entries[i])
                == spec_entry_payload(d, b.entries[i]),
        forall|i: int|
            0 <= i && i + 1 < b2.entries.len() ==> (#[trigger] b2.entries[i]).offset
                < b2.entries[i + 1].offset,
{
    let hl = spec_header_len(version2);
    lemma_create_entries_len(files, version2, hl);
    assert(b2.entries == spec_create_entries(files, version2, hl));
    assert(files.len() == b.entries.len());
    assert(b2.entries.len() == b.entries.len());
    assert forall|i: int| 0 <= i < b.entries.len() implies {
        &&& (#[trigger] b2.entries[i]).file_name == b.entries[i].file_name
        &&& spec_entry_payload(bytes2, b2.entries[i]) == spec_entry_payload(d, b.entries[i])
    } by {
        lemma_archive_round_trip_entry(d, b, files, b2, bytes2, version2, i);
    }
    assert forall|i: int| 0 <= i && i + 1 < b2.entries.len() implies (
    #[trigger] b2.entries[i]).offset < b2.entries[i + 1].offset by {
        lemma_archive_round_trip_entry(d, b, files, b2, bytes2, version2, i);
        lemma_archive_round_trip_entry(d, b, files, b2, bytes2, version2, i + 1);
        lemma_total_payload_take_step(files, i);
    }
}

/// The tab-separated manifest header: `#`, `"file_name"`, `"file_size"`.
pub open spec fn spec_csv_header() -> Seq<u8> {
    seq![
        35u8,
        9,
        34,
        102,
        105,
        108,
        101,
        95,
        110,
        97,
        109,
        101,
        34,
        9,
        34,
        102,
        105,
        108,
        101,
        95,
        115,
        105,
        122,
        101,
        34,
    ]
}

/// One manifest row: one-based index, decoded entry name, payload size,
/// tab-separated.
pub open spec fn spec_csv_row(e: BarEntrySpec, idx: nat) -> Seq<u8> {
    spec_dec_bytes(idx + 1) + seq![9u8] + encode_utf8(
        utf16_str(spec_utf16_units(e.file_name)).unwrap(),
    ) + seq![9u8] + spec_dec_bytes(e.file_size2 as nat)
}

/// The manifest rows from `idx` on, separated by a tab and a newline.
pub open spec fn spec_csv_rows(entries: Seq<BarEntrySpec>, idx: nat) -> Seq<u8>
    decreases entries.len(),
{
    if entries.len() == 0 {
        Seq::empty()
    } else if entries.len() == 1 {
        spec_csv_row(entries[0], idx)
    } else {
        spec_csv_row(entries[0], idx) + seq![9u8, 10u8] + spec_csv_rows(entries.skip(1), idx + 1)
    }
}

impl BarEntry {
    /// The entry's path below the managed output directory: the decoded root
    /// path followed by the decoded entry name; refused when either is not
    /// valid UTF-16.
    pub fn get_path(&self, root_path: &[u8]) -> (r: Result<String, BarError>)
        ensures
            r is Ok <==> utf16_str(spec_utf16_units(root_path@)) is Some && utf16_str(
                spec_utf16_units(self.file_name@),
            ) is Some,
            r is Ok ==> r.unwrap()@ == utf16_str(spec_utf16_units(root_path@)).unwrap()
                + utf16_str(spec_utf16_units(self.file_name@)).unwrap(),
            r is Err ==> r.unwrap_err() == BarError::MalformedName,
    {
        let root = match BarFile::vec_u8_to_string_u16(root_path) {
            Some(s) => s,
            None => {
                return Err(BarError::MalformedName);
            },
        };
        let name = match BarFile::vec_u8_to_string_u16(self.file_name.as_slice()) {
            Some(s) => s,
            None => {
                return Err(BarError::MalformedName);
            },
        };
        let mut path = root;
        path.append(name.as_str());
        Ok(path)
    }
}

impl BarFile {
    /// The bytes of the `__entries.csv` manifest for this archive: a header
    /// row, then one tab-separated row per entry. Nothing when an entry name
    /// is not valid UTF-16.
    pub fn to_csv(&self) -> (r: Option<Vec<u8>>)
        ensures
            r is Some <==> (forall|i: int|
                0 <= i < self.entries@.len() ==> utf16_str(
                    spec_utf16_units((#[trigger] self.entries@[i]).file_name@),
                ) is Some),
            r is Some ==> r.unwrap()@ == spec_csv_header() + spec_csv_rows(self@.entries, 0),
    {
        let ghost es = self@.entries;
        let mut out: Vec<u8> = Vec::new();
        out.push(35);
        out.push(9);
        out.push(34);
        out.push(102);
        out.push(105);
        out.push(108);
        out.push(101);
        out.push(95);
        out.push(110);
        out.push(97);
        out.push(109);
        out.push(101);
        out.push(34);
        out.push(9);
        out.push(34);
        out.push(102);
        out.push(105);
        out.push(108);
        out.push(101);
        out.push(95);
        out.push(115);
        out.push(105);
        out.push(122);
        out.push(101);
        out.push(34);
        proof {
            assert(out@ =~= spec_csv_header());
            assert(es.skip(0) =~= es);
        }
        let n = self.entries.len();
        let mut i: usize = 0;
        while i < n
            invariant
                es == self@.entries,
                n == self.entries@.len(),
                i <= n,
                forall|j: int|
                    0 <= j < i ==> utf16_str(
                        spec_utf16_units((#[trigger] self.entries@[j]).file_name@),
                    ) is Some,
                out@ + spec_csv_rows(es.skip(i as int), i as nat) == spec_csv_header()
                    + spec_csv_rows(es, 0),
            decreases n - i,
        {
            proof {
                assert(es.skip(i as int)[0] == es[i as int]);
                assert(es.skip(i as int).skip(1) =~= es.skip(i as int + 1));
            }
            let ghost out_prev = out@;
            let entry = &self.entries[i];
            let name = match BarFile::vec_u8_to_string_u16(entry.file_name.as_slice()) {
                Some(s) => s,
                None => {
                    return None;
                },
            };
            push_decimal(&mut out, (i + 1) as u64);
            out.push(9);
            let mut name_bytes = slice_to_vec(name.as_str().as_bytes());
            out.append(&mut name_bytes);
            out.push(9);
            push_decimal(&mut out, entry.file_size2 as u64);
            proof {
                assert(out@ =~= out_prev + spec_csv_row(es[i as int], i as nat));
            }
            if i != n - 1 {
                out.push(9);
                out.push(10);
                proof {
                    assert(out@ =~= out_prev + spec_csv_row(es[i as int], i as nat) + seq![
                        9u8,
                        10u8,
                    ]);
                    assert(out_prev + spec_csv_rows(es.skip(i as int), i as nat) =~= out@
                        + spec_csv_rows(es.skip(i as int + 1), i as nat + 1));
                }
            } else {
                proof {
                    assert(es.skip(i as int).len() == 1);
                    assert(out_prev + spec_csv_rows(es.skip(i as int), i as nat) =~= out@
                        + spec_csv_rows(es.skip(i as int + 1), i as nat + 1));
                }
            }
            i = i + 1;
        }
        proof {
            assert(es.skip(n as int) =~= Seq::<BarEntrySpec>::empty());
            assert(out@ + Seq::<u8>::empty() =~= out@);
        }
        Some(out)
    }
}

/// Where each field of one serialized DE entry sits in the data.
proof fn lemma_entry_field_slices(d: Seq<u8>, pos: int, e: BarEntrySpec)
    requires
        0 <= pos,
        pos + 28 + e.file_name.len() <= d.len(),
        d.subrange(pos, pos + 28 + e.file_name.len()) == spec_entry_bytes(BAR_VERSION_AOE3DE, e),
    ensures
        d.subrange(pos, pos + 8) == u64_le_bytes(e.offset),
        d.subrange(pos + 8, pos + 12) == u32_le_bytes(e.file_size1),
        d.subrange(pos + 12, pos + 16) == u32_le_bytes(e.file_size2),
        d.subrange(pos + 16, pos + 20) == u32_le_bytes(e.file_size3),
        d.subrange(pos + 20, pos + 24) == u32_le_bytes(e.file_name_length),
        d.subrange(pos + 24, pos + 24 + e.file_name.len()) == e.file_name,
        d.subrange(
            pos + 24 + e.file_name.len(),
            pos + 28 + e.file_name.len(),
        ) == u32_le_bytes(e.is_encoded),
{
    let q1 = u64_le_bytes(e.offset) + u32_le_bytes(e.file_size1);
    let q2 = q1 + u32_le_bytes(e.file_size2);
    let q3 = q2 + u32_le_bytes(e.file_size3);
    let q4 = q3 + u32_le_bytes(e.file_name_length);
    let q5 = q4 + e.file_name;
    assert(spec_entry_bytes(BAR_VERSION_AOE3DE, e) == q5 + u32_le_bytes(e.is_encoded)) by {
        reveal(spec_entry_bytes);
    }
    lemma_concat_slices(d, pos, q5, u32_le_bytes(e.is_encoded));
    lemma_concat_slices(d, pos, q4, e.file_name);
    lemma_concat_slices(d, pos, q3, u32_le_bytes(e.file_name_length));
    lemma_concat_slices(d, pos, q2, u32_le_bytes(e.file_size3));
    lemma_concat_slices(d, pos, q1, u32_le_bytes(e.file_size2));
    lemma_concat_slices(d, pos, u64_le_bytes(e.offset), u32_le_bytes(e.file_size1));
}

/// One serialized DE entry, sitting at `pos`, parses back to the record it
/// was written from, provided the record's name length field matches its
/// name and its Legacy-only timestamp fields are clear.
#[verifier::rlimit(100)]
#[verifier::spinoff_prover]
proof fn lemma_parse_entry_of_bytes(d: Seq<u8>, pos: int, e: BarEntrySpec)
    requires
        0 <= pos,
        pos + 28 + e.file_name.len() <= d.len(),
        2 * e.file_name_length == e.file_name.len(),
        e.year == 0 && e.month == 0 && e.day_of_week == 0 && e.day == 0,
        e.hour == 0 && e.minute == 0 && e.second == 0 && e.msecond == 0,
        d.subrange(pos, pos + 28 + e.file_name.len()) == spec_entry_bytes(BAR_VERSION_AOE3DE, e),
    ensures
        spec_parse_entry(d, pos, BAR_VERSION_AOE3DE) == Ok::<(BarEntrySpec, int), BarError>(
            (e, pos + 28 + e.file_name.len()),
        ),
{
    let nl = e.file_name.len() as int;
    lemma_entry_field_slices(d, pos, e);
    lemma_extract_u64(d, pos, e.offset);
    lemma_extract_u32(d, pos + 8, e.file_size1);
    lemma_extract_u32(d, pos + 12, e.file_size2);
    lemma_extract_u32(d, pos + 16, e.file_size3);
    lemma_extract_u32(d, pos + 20, e.file_name_length);
    lemma_extract_u32(d, pos + 24 + nl, e.is_encoded);
    let parsed = BarEntrySpec {
        offset: le64_at(d, pos),
        file_size1: le32_at(d, pos + 8),
        file_size2: le32_at(d, pos + 12),
        file_size3: le32_at(d, pos + 16),
        year: 0,
        month: 0,
        day_of_week: 0,
        day: 0,
        hour: 0,
        minute: 0,
        second: 0,
        msecond: 0,
        file_name_length: le32_at(d, pos + 20),
        file_name: d.subrange(pos + 24, pos + 24 + 2 * le32_at(d, pos + 20)),
        is_encoded: le32_at(d, pos + 24 + 2 * le32_at(d, pos + 20)),
    };
    assert(parsed =~= e);
}

/// A serialized DE entry is as long as its fixed fields plus its name.
proof fn lemma_entry_bytes_len_de(e: BarEntrySpec)
    ensures
        spec_entry_bytes(BAR_VERSION_AOE3DE, e).len() == 28 + e.file_name.len(),
{
    reveal(spec_entry_bytes);
}

/// Serialized DE entries that run to the end of the data parse back to the
/// records they were written from.
proof fn lemma_parse_entries_of_bytes(d: Seq<u8>, pos: int, es: Seq<BarEntrySpec>)
    requires
        0 <= pos <= d.len(),
        forall|i: int|
            0 <= i < es.len() ==> {
                &&& 2 * (#[trigger] es[i]).file_name_length == es[i].file_name.len()
                &&& es[i].year == 0 && es[i].month == 0 && es[i].day_of_week == 0 && es[i].day
                    == 0
                &&& es[i].hour == 0 && es[i].minute == 0 && es[i].second == 0 && es[i].msecond
                    == 0
            },
        d.subrange(pos, d.len() as int) == spec_entries_bytes(BAR_VERSION_AOE3DE, es),
    ensures
        spec_parse_entries(d, pos, es.len(), BAR_VERSION_AOE3DE) == Ok::<
            (Seq<BarEntrySpec>, int),
            BarError,
        >((es, d.len() as int)),
    decreases es.len(),
{
    if es.len() == 0 {
        assert(d.subrange(pos, d.len() as int).len() == 0);
        assert(es =~= Seq::<BarEntrySpec>::empty());
    } else {
        let e0 = es[0];
        let eb = spec_entry_bytes(BAR_VERSION_AOE3DE, e0);
        let rest = spec_entries_bytes(BAR_VERSION_AOE3DE, es.skip(1));
        let elen = 28 + e0.file_name.len() as int;
        lemma_entry_bytes_len_de(e0);
        assert(spec_entries_bytes(BAR_VERSION_AOE3DE, es) == eb + rest);
        assert(d.subrange(pos, d.len() as int).len() == eb.len() + rest.len());
        assert(d.len() - pos == elen + rest.len());
        lemma_concat_slices(d, pos, eb, rest);
        lemma_parse_entry_of_bytes(d, pos, e0);
        assert(d.subrange(pos + elen, d.len() as int) == rest);
        lemma_parse_entries_of_bytes(d, pos + elen, es.skip(1));
        assert(seq![e0] + es.skip(1) =~= es);
    }
}

/// What the DE writer emits, the reader reads back exactly: parsing a
/// freshly built archive image yields the very record the writer returned.
/// (The Legacy dialect has no wire fields for the duplicate size and the
/// encoding class, so only the DE dialect reads back every recorded field.)
#[verifier::rlimit(100)]
pub proof fn lemma_open_create_round_trip(files: Seq<SourceSpec>, root_path: Seq<u8>)
    requires
        files.len() <= u32::MAX,
        root_path.len() % 2 == 0,
        root_path.len() / 2 <= u32::MAX,
        forall|i: int|
            0 <= i < files.len() ==> {
                &&& (#[trigger] files[i]).data.len() <= u32::MAX
                &&& files[i].file_name.len() % 2 == 0
                &&& files[i].file_name.len() / 2 <= u32::MAX
            },
        spec_header_len(BAR_VERSION_AOE3DE) + spec_total_payload(files) <= u64::MAX,
    ensures
        spec_parse_bar(spec_create_bar_bytes(files, root_path, BAR_VERSION_AOE3DE)) == Ok::<
            BarSpec,
            BarError,
        >(spec_create_bar(files, root_path, BAR_VERSION_AOE3DE)),
{
    let version = BAR_VERSION_AOE3DE;
    let b = spec_create_bar(files, root_path, version);
    let d = spec_create_bar_bytes(files, root_path, version);
    let total = spec_total_payload(files);
    lemma_total_payload_nonneg(files);
    lemma_payload_bytes_len(files);
    lemma_header_bytes_len(version, b.file_count, b.files_table_offset);
    lemma_create_entries_len(files, version, 304);
    let hdr = spec_header_bytes(version, b.file_count, b.files_table_offset);
    let toc = spec_toc_bytes(b);
    let ebytes = spec_entries_bytes(version, b.entries);
    let t: int = 304 + total;
    assert(b.files_table_offset == t as u64);
    assert(d.len() == 304 + total + toc.len());

    assert(d.subrange(0, 4) =~= u32_le_bytes(BINARY_SIGNATURE_BAR));
    lemma_extract_u32(d, 0, BINARY_SIGNATURE_BAR);
    assert(d.subrange(4, 8) =~= u32_le_bytes(version));
    lemma_extract_u32(d, 4, version);
    assert(d.subrange(8, 12) =~= u32_le_bytes(BINARY_BAR_MAGIC));
    lemma_extract_u32(d, 8, BINARY_BAR_MAGIC);
    assert(d.subrange(12, 276) =~= spec_zero_bytes(264));
    assert(d.subrange(276, 280) =~= u32_le_bytes(0));
    lemma_extract_u32(d, 276, 0);
    assert(d.subrange(280, 284) =~= u32_le_bytes(b.file_count));
    lemma_extract_u32(d, 280, b.file_count);
    assert(d.subrange(284, 288) =~= u32_le_bytes(0));
    lemma_extract_u32(d, 284, 0);
    assert(d.subrange(288, 296) =~= u64_le_bytes(b.files_table_offset));
    lemma_extract_u64(d, 288, b.files_table_offset);
    assert(d.subrange(296, 300) =~= u32_le_bytes(0));
    lemma_extract_u32(d, 296, 0);
    assert(d.subrange(300, 304) =~= u32_le_bytes(0));
    lemma_extract_u32(d, 300, 0);

    let rl2 = root_path.len() as int;
    assert(2 * b.root_path_length == rl2);
    assert(d.subrange(t, t + 4) =~= u32_le_bytes(b.root_path_length));
    lemma_extract_u32(d, t, b.root_path_length);
    assert(d.subrange(t + 4, t + 4 + rl2) =~= root_path);
    let q = t + 4 + rl2;
    assert(d.subrange(q, q + 4) =~= u32_le_bytes(b.root_file_count));
    lemma_extract_u32(d, q, b.root_file_count);

    assert forall|i: int| 0 <= i < b.entries.len() implies {
        &&& 2 * (#[trigger] b.entries[i]).file_name_length == b.entries[i].file_name.len()
        &&& b.entries[i].year == 0 && b.entries[i].month == 0 && b.entries[i].day_of_week == 0
            && b.entries[i].day == 0
        &&& b.entries[i].hour == 0 && b.entries[i].minute == 0 && b.entries[i].second == 0
            && b.entries[i].msecond == 0
    } by {
        lemma_create_entries_index(files, version, 304, i);
    }
    assert(d.subrange(q + 4, d.len() as int) =~= ebytes);
    lemma_parse_entries_of_bytes(d, q + 4, b.entries);

    let parsed = spec_parse_bar(d);
    assert(parsed is Ok);
    assert(parsed.unwrap() =~= b);
}

} // verus!
