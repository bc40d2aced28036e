//! The DDT texture container: a 16-byte header, a mipmap/cubemap surface
//! table, and the surfaces themselves, dispatched to the DXT block codec or
//! carried raw.

use vstd::prelude::*;

use crate::bytes::{le32_at, push_u32, read_u32, u32_le_bytes};
use crate::consts::{
    BINARY_SIGNATURE_DDT, DDT_FORMAT_BGRA, DDT_FORMAT_DXT1, DDT_FORMAT_DXT1DE, DDT_FORMAT_DXT3,
    DDT_FORMAT_DXT5, DDT_FORMAT_GREY, DDT_USAGE_CUBE,
};
use crate::consts::TGA_UNCOMPRESSED_TRUE_COLOR;
use crate::dxt::{
    spec_blocks_x, spec_blocks_y, spec_compress, spec_decompressed, spec_encoded_bytes_per_block,
    spec_is_dxt, DxtImage, DxtImageSpec,
};
use crate::tga::TgaFile;
use vstd::slice::{slice_subrange, slice_to_vec};

verus! {

/// What can go wrong while reading or converting a texture container.
#[derive(Clone, Copy, Debug, PartialEq, Eq, Structural)]
pub enum DdtError {
    /// The first four bytes are not the texture signature.
    NotValidDdtSignature,
    /// The format code is not one the codec supports.
    NotValidDdtFormat,
    /// The data ends before a surface that the table promises.
    UnexpectedEnd,
}

/// A parsed texture container.
pub struct DdtFile {
    pub signature: u32,
    /// Usage bitmask: standard, alpha-test, low-detail, bump, cube.
    pub usage: u8,
    /// Alpha classifier.
    pub alpha: u8,
    /// Surface format code.
    pub format: u8,
    pub mipmap_levels: u8,
    pub base_width: u32,
    pub base_height: u32,
    pub images: Vec<DxtImage>,
}

/// The mathematical image of a [`DdtFile`].
#[verifier::ext_equal]
pub ghost struct DdtSpec {
    pub signature: u32,
    pub usage: u8,
    pub alpha: u8,
    pub format: u8,
    pub mipmap_levels: u8,
    pub base_width: u32,
    pub base_height: u32,
    pub images: Seq<DxtImageSpec>,
}

impl View for DdtFile {
    type V = DdtSpec;

    open spec fn view(&self) -> DdtSpec {
        DdtSpec {
            signature: self.signature,
            usage: self.usage,
            alpha: self.alpha,
            format: self.format,
            mipmap_levels: self.mipmap_levels,
            base_width: self.base_width,
            base_height: self.base_height,
            images: self.images@.map_values(|i: DxtImage| i@),
        }
    }
}

/// How many cube faces the usage bitmask declares.
pub open spec fn spec_faces(usage: u8) -> int {
    if usage & DDT_USAGE_CUBE == DDT_USAGE_CUBE {
        6
    } else {
        1
    }
}

/// A mip dimension: the base halved once per level, never below one.
pub open spec fn spec_surface_dim(base: u32, sh: int) -> u32 {
    if sh >= 32 {
        1
    } else if base >> (sh as u32) == 0 {
        1
    } else {
        base >> (sh as u32)
    }
}

/// The surfaces from table slot `i` on: each table pair read at its fixed
/// position, each payload cut from its offset.
pub open spec fn spec_parse_surfaces(
    d: Seq<u8>,
    i: int,
    count: int,
    base_w: u32,
    base_h: u32,
    faces: int,
) -> Result<Seq<DxtImageSpec>, DdtError>
    decreases count - i,
{
    if i >= count {
        Ok(Seq::empty())
    } else {
        if 16 + 8 * i + 8 > d.len() {
            Err(DdtError::UnexpectedEnd)
        } else {
            let off = le32_at(d, 16 + 8 * i);
            let len = le32_at(d, 16 + 8 * i + 4);
            if off + len > d.len() {
                Err(DdtError::UnexpectedEnd)
            } else {
                match spec_parse_surfaces(d, i + 1, count, base_w, base_h, faces) {
                    Err(e) => Err(e),
                    Ok(rest) => Ok(
                        seq![
                            DxtImageSpec {
                                width: spec_surface_dim(base_w, i / faces),
                                height: spec_surface_dim(base_h, i / faces),
                                offset: off,
                                length: len,
                                raw_data: d.subrange(off as int, off + len),
                            },
                        ] + rest,
                    ),
                }
            }
        }
    }
}

/// The whole container read from its bytes.
pub open spec fn spec_parse_ddt(d: Seq<u8>) -> Result<DdtSpec, DdtError> {
    if d.len() < 4 {
        Err(DdtError::UnexpectedEnd)
    } else if le32_at(d, 0) != BINARY_SIGNATURE_DDT {
        Err(DdtError::NotValidDdtSignature)
    } else if d.len() < 16 {
        Err(DdtError::UnexpectedEnd)
    } else {
        let usage = d[4];
        let alpha = d[5];
        let format = d[6];
        let mipmap_levels = d[7];
        let base_width = le32_at(d, 8);
        let base_height = le32_at(d, 12);
        let faces = spec_faces(usage);
        match spec_parse_surfaces(
            d,
            0,
            mipmap_levels * faces,
            base_width,
            base_height,
            faces,
        ) {
            Err(e) => Err(e),
            Ok(images) => Ok(
                DdtSpec {
                    signature: BINARY_SIGNATURE_DDT,
                    usage,
                    alpha,
                    format,
                    mipmap_levels,
                    base_width,
                    base_height,
                    images,
                },
            ),
        }
    }
}

/// What decoding one surface of a format yields: the block decoder's image
/// for the DXT formats, the payload unchanged for BGRA and greyscale.
pub open spec fn spec_ddt_decode(format: u8, usage: u8, img: DxtImageSpec) -> Result<
    Seq<u8>,
    DdtError,
> {
    if spec_is_dxt(format) {
        if img.raw_data.len() >= spec_blocks_x(img.width as int) * spec_blocks_y(img.height as int)
            * spec_encoded_bytes_per_block(format) {
            Ok(spec_decompressed(img.raw_data, format, usage, img.width as int, img.height as int))
        } else {
            Err(DdtError::UnexpectedEnd)
        }
    } else if format == DDT_FORMAT_BGRA || format == DDT_FORMAT_GREY {
        Ok(img.raw_data)
    } else {
        Err(DdtError::NotValidDdtFormat)
    }
}

/// What encoding an image to a format yields: the block encoder's output for
/// the DXT formats, the input unchanged for BGRA and greyscale.
pub open spec fn spec_ddt_encode(
    format: u8,
    usage: u8,
    source: Seq<u8>,
    w: int,
    h: int,
) -> Result<Seq<u8>, DdtError> {
    if spec_is_dxt(format) {
        Ok(spec_compress(source, format, usage, w, h))
    } else if format == DDT_FORMAT_BGRA || format == DDT_FORMAT_GREY {
        Ok(source)
    } else {
        Err(DdtError::NotValidDdtFormat)
    }
}

/// Decoding a raw-format surface and encoding the result back gives the
/// payload bit for bit.
pub proof fn lemma_ddt_raw_round_trip(format: u8, usage: u8, img: DxtImageSpec, w: int, h: int)
    requires
        format == DDT_FORMAT_BGRA || format == DDT_FORMAT_GREY,
    ensures
        spec_ddt_decode(format, usage, img) == Ok::<Seq<u8>, DdtError>(img.raw_data),
        spec_ddt_encode(
            format,
            usage,
            spec_ddt_decode(format, usage, img).unwrap(),
            w,
            h,
        ) == Ok::<Seq<u8>, DdtError>(img.raw_data),
{
}

/// The surface table from slot `i` on, with payloads placed one after the
/// other from `off`.
pub open spec fn spec_ddt_table_bytes(images: Seq<DxtImageSpec>, off: int) -> Seq<u8>
    decreases images.len(),
{
    if images.len() == 0 {
        Seq::empty()
    } else {
        u32_le_bytes((off % 0x1_0000_0000) as u32) + u32_le_bytes(
            (images[0].raw_data.len() % 0x1_0000_0000) as u32,
        ) + spec_ddt_table_bytes(images.skip(1), off + images[0].raw_data.len())
    }
}

/// The surface payloads, one after the other.
pub open spec fn spec_ddt_payload_bytes(images: Seq<DxtImageSpec>) -> Seq<u8>
    decreases images.len(),
{
    if images.len() == 0 {
        Seq::empty()
    } else {
        images[0].raw_data + spec_ddt_payload_bytes(images.skip(1))
    }
}

/// The container's bytes: header, surface table, payloads at the offsets the
/// table declares.
pub open spec fn spec_ddt_bytes(d: DdtSpec) -> Seq<u8> {
    u32_le_bytes(d.signature) + seq![d.usage, d.alpha, d.format, d.mipmap_levels] + u32_le_bytes(
        d.base_width,
    ) + u32_le_bytes(d.base_height) + spec_ddt_table_bytes(d.images, 16 + 8 * d.images.len() as int)
        + spec_ddt_payload_bytes(d.images)
}

impl DdtFile {
    /// Decodes the container's first surface: the DXT formats through the
    /// block decoder, BGRA and greyscale as they are; any other format code
    /// is refused.
    pub fn decode(&self) -> (r: Result<Vec<u8>, DdtError>)
        requires
            self.images@.len() >= 1,
            spec_is_dxt(self.format) ==> {
                &&& self.images@[0].width * self.images@[0].height * 4 <= u32::MAX
                &&& self.images@[0].width <= u32::MAX - 3
                &&& self.images@[0].height <= u32::MAX - 3
            },
        ensures
            match (r, spec_ddt_decode(self.format, self.usage, self.images@[0]@)) {
                (Ok(v), Ok(s)) => v@ == s,
                (Err(e), Err(es)) => e == es,
                _ => false,
            },
    {
        let ddt_image = &self.images[0];
        if self.format == DDT_FORMAT_DXT1 || self.format == DDT_FORMAT_DXT1DE || self.format
            == DDT_FORMAT_DXT3 || self.format == DDT_FORMAT_DXT5 {
            match ddt_image.decompress(self.format, self.usage) {
                Some(v) => Ok(v),
                None => Err(DdtError::UnexpectedEnd),
            }
        } else if self.format == DDT_FORMAT_BGRA || self.format == DDT_FORMAT_GREY {
            let copy = ddt_image.raw_data.clone();
            proof {
                assert(copy@ =~= self.images@[0]@.raw_data);
            }
            Ok(copy)
        } else {
            Err(DdtError::NotValidDdtFormat)
        }
    }

    /// Encodes an image to a surface format: the DXT formats through the
    /// block encoder, BGRA and greyscale as they are; any other format code
    /// is refused.
    pub fn encode(source: &[u8], width: u16, height: u16, usage: u8, format: u8) -> (r: Result<
        Vec<u8>,
        DdtError,
    >)
        requires
            spec_is_dxt(format) ==> {
                &&& width % 4 == 0
                &&& height % 4 == 0
                &&& width > 0
                &&& height > 0
                &&& source@.len() == width * height * 4
                &&& width * height * 4 <= u32::MAX
            },
        ensures
            match (r, spec_ddt_encode(format, usage, source@, width as int, height as int)) {
                (Ok(v), Ok(s)) => v@ == s,
                (Err(e), Err(es)) => e == es,
                _ => false,
            },
    {
        if format == DDT_FORMAT_DXT1 || format == DDT_FORMAT_DXT1DE || format == DDT_FORMAT_DXT3
            || format == DDT_FORMAT_DXT5 {
            Ok(DxtImage::compress(source, format, usage, width as u32, height as u32))
        } else if format == DDT_FORMAT_BGRA || format == DDT_FORMAT_GREY {
            Ok(slice_to_vec(source))
        } else {
            Err(DdtError::NotValidDdtFormat)
        }
    }

    /// Reads a container from its bytes: the fixed header, then one table
    /// pair and one payload per surface.
    #[verifier::loop_isolation(false)]
    pub fn read(data: &[u8]) -> (r: Result<DdtFile, DdtError>)
        ensures
            match (r, spec_parse_ddt(data@)) {
                (Ok(d), Ok(ds)) => d@ == ds,
                (Err(e), Err(es)) => e == es,
                _ => false,
            },
    {
        let n = data.len();
        if n < 4 {
            return Err(DdtError::UnexpectedEnd);
        }
        let signature = read_u32(data, 0);
        if signature != BINARY_SIGNATURE_DDT {
            return Err(DdtError::NotValidDdtSignature);
        }
        if n < 16 {
            return Err(DdtError::UnexpectedEnd);
        }
        let usage = data[4];
        let alpha = data[5];
        let format = data[6];
        let mipmap_levels = data[7];
        let base_width = read_u32(data, 8);
        let base_height = read_u32(data, 12);
        let faces: u32 = if usage & DDT_USAGE_CUBE == DDT_USAGE_CUBE {
            6
        } else {
            1
        };
        let count: u32 = mipmap_levels as u32 * faces;
        let ghost ci = count as int;
        let ghost fi = faces as int;
        let mut images: Vec<DxtImage> = Vec::new();
        let mut i: u32 = 0;
        while i < count
            invariant
                i <= count,
                images@.len() == i,
                match spec_parse_surfaces(data@, i as int, ci, base_width, base_height, fi) {
                    Ok(rest) => spec_parse_surfaces(data@, 0, ci, base_width, base_height, fi)
                        == Ok::<_, DdtError>(
                        images@.map_values(|im: DxtImage| im@) + rest,
                    ),
                    Err(e) => spec_parse_surfaces(data@, 0, ci, base_width, base_height, fi)
                        == Err::<Seq<DxtImageSpec>, _>(e),
                },
            decreases count - i,
        {
            let ghost images_old = images@;
            let table_pos: usize = 16 + 8 * (i as usize);
            if n - 16 < 8 * (i as usize) || n - 16 - 8 * (i as usize) < 8 {
                return Err(DdtError::UnexpectedEnd);
            }
            let offset = read_u32(data, table_pos);
            let length = read_u32(data, table_pos + 4);
            if offset as u64 > n as u64 || length as u64 > n as u64 - offset as u64 {
                return Err(DdtError::UnexpectedEnd);
            }
            let sh: u32 = i / faces;
            let width: u32 = if sh >= 32 {
                1
            } else {
                let v = base_width >> sh;
                if v == 0 {
                    1
                } else {
                    v
                }
            };
            let height: u32 = if sh >= 32 {
                1
            } else {
                let v = base_height >> sh;
                if v == 0 {
                    1
                } else {
                    v
                }
            };
            let raw_data = slice_to_vec(
                slice_subrange(data, offset as usize, offset as usize + length as usize),
            );
            let image = DxtImage { width, height, offset, length, raw_data };
            proof {
                let head = DxtImageSpec {
                    width: spec_surface_dim(base_width, i as int / fi),
                    height: spec_surface_dim(base_height, i as int / fi),
                    offset,
                    length,
                    raw_data: data@.subrange(offset as int, offset + length),
                };
                assert(image@ =~= head);
                let rest = spec_parse_surfaces(
                    data@,
                    i as int + 1,
                    ci,
                    base_width,
                    base_height,
                    fi,
                );
                assert(spec_parse_surfaces(data@, i as int, ci, base_width, base_height, fi)
                    == match rest {
                    Err(e) => Err::<Seq<DxtImageSpec>, DdtError>(e),
                    Ok(r) => Ok(seq![head] + r),
                });
                if rest is Ok {
                    assert((images_old.push(image)).map_values(|im: DxtImage| im@)
                        =~= images_old.map_values(|im: DxtImage| im@).push(image@));
                    assert(images_old.map_values(|im: DxtImage| im@).push(image@)
                        + rest.unwrap() =~= images_old.map_values(|im: DxtImage| im@) + (seq![
                        head,
                    ] + rest.unwrap()));
                }
            }
            images.push(image);
            i = i + 1;
        }
        proof {
            assert(images@.map_values(|im: DxtImage| im@) + Seq::<DxtImageSpec>::empty()
                =~= images@.map_values(|im: DxtImage| im@));
        }
        let ddt = DdtFile {
            signature,
            usage,
            alpha,
            format,
            mipmap_levels,
            base_width,
            base_height,
            images,
        };
        proof {
            assert(ddt@ =~= spec_parse_ddt(data@).unwrap());
        }
        Ok(ddt)
    }
}

/// The number of payload bytes the surfaces hold together.
pub open spec fn spec_ddt_total(images: Seq<DxtImageSpec>) -> int
    decreases images.len(),
{
    if images.len() == 0 {
        0
    } else {
        images[0].raw_data.len() + spec_ddt_total(images.skip(1))
    }
}

pub proof fn lemma_ddt_total_nonneg(images: Seq<DxtImageSpec>)
    ensures
        spec_ddt_total(images) >= 0,
    decreases images.len(),
{
    if images.len() > 0 {
        lemma_ddt_total_nonneg(images.skip(1));
    }
}

impl DdtFile {
    /// Decodes the first surface and wraps it in a targa carrier that keeps
    /// the four side-channel bytes.
    pub fn to_tga(&self) -> (r: Result<TgaFile, DdtError>)
        requires
            self.images@.len() >= 1,
            self.base_width <= u16::MAX,
            self.base_height <= u16::MAX,
            spec_is_dxt(self.format) ==> {
                &&& self.images@[0].width * self.images@[0].height * 4 <= u32::MAX
                &&& self.images@[0].width <= u32::MAX - 3
                &&& self.images@[0].height <= u32::MAX - 3
            },
        ensures
            r is Ok <==> spec_ddt_decode(self.format, self.usage, self.images@[0]@) is Ok,
            r matches Ok(t) ==> {
                &&& t.image_width == self.base_width as u16
                &&& t.image_height == self.base_height as u16
                &&& t.raw_data@ == spec_ddt_decode(
                    self.format,
                    self.usage,
                    self.images@[0]@,
                ).unwrap()
                &&& t.image_id@ == seq![self.usage, self.alpha, self.format, self.mipmap_levels]
                &&& t.image_type == TGA_UNCOMPRESSED_TRUE_COLOR
                &&& t.pixel_depth == (if self.format == DDT_FORMAT_GREY {
                    8u8
                } else {
                    32u8
                })
            },
            r matches Err(e) ==> spec_ddt_decode(self.format, self.usage, self.images@[0]@)
                == Err::<Seq<u8>, DdtError>(e),
    {
        let decoded = match self.decode() {
            Ok(v) => v,
            Err(e) => {
                return Err(e);
            },
        };
        Ok(
            TgaFile::new(
                self.base_width as u16,
                self.base_height as u16,
                self.usage,
                self.alpha,
                self.format,
                self.mipmap_levels,
                decoded,
            ),
        )
    }

    /// Encodes a targa carrier back into a single-surface container, taking
    /// the four side-channel bytes from the carrier's file-name metadata.
    pub fn from_tga(tga: &TgaFile) -> (r: Result<DdtFile, DdtError>)
        requires
            spec_is_dxt(tga.image_id@[2]) ==> {
                &&& tga.image_width % 4 == 0
                &&& tga.image_height % 4 == 0
                &&& tga.image_width > 0
                &&& tga.image_height > 0
                &&& tga.raw_data@.len() == tga.image_width * tga.image_height * 4
                &&& tga.image_width * tga.image_height * 4 <= u32::MAX
            },
            spec_ddt_encode(
                tga.image_id@[2],
                tga.image_id@[0],
                tga.raw_data@,
                tga.image_width as int,
                tga.image_height as int,
            ) matches Ok(v) ==> v.len() <= u32::MAX,
        ensures
            r is Ok <==> spec_ddt_encode(
                tga.image_id@[2],
                tga.image_id@[0],
                tga.raw_data@,
                tga.image_width as int,
                tga.image_height as int,
            ) is Ok,
            r matches Ok(d) ==> {
                let encoded = spec_ddt_encode(
                    tga.image_id@[2],
                    tga.image_id@[0],
                    tga.raw_data@,
                    tga.image_width as int,
                    tga.image_height as int,
                ).unwrap();
                &&& d.signature == BINARY_SIGNATURE_DDT
                &&& d.usage == tga.image_id@[0]
                &&& d.alpha == tga.image_id@[1]
                &&& d.format == tga.image_id@[2]
                &&& d.mipmap_levels == tga.image_id@[3]
                &&& d.base_width == tga.image_width as u32
                &&& d.base_height == tga.image_height as u32
                &&& d.images@.len() == 1
                &&& d.images@[0]@ == (DxtImageSpec {
                    width: tga.image_width as u32,
                    height: tga.image_height as u32,
                    offset: 0,
                    length: encoded.len() as u32,
                    raw_data: encoded,
                })
            },
            r matches Err(e) ==> spec_ddt_encode(
                tga.image_id@[2],
                tga.image_id@[0],
                tga.raw_data@,
                tga.image_width as int,
                tga.image_height as int,
            ) == Err::<Seq<u8>, DdtError>(e),
    {
        let usage = tga.image_id[0];
        let format = tga.image_id[2];
        let dxt_image_vec = match DdtFile::encode(
            tga.raw_data.as_slice(),
            tga.image_width,
            tga.image_height,
            usage,
            format,
        ) {
            Ok(v) => v,
            Err(e) => {
                return Err(e);
            },
        };
        let length: u32 = dxt_image_vec.len() as u32;
        let image = DxtImage {
            width: tga.image_width as u32,
            height: tga.image_height as u32,
            offset: 0,
            length,
            raw_data: dxt_image_vec,
        };
        let mut images: Vec<DxtImage> = Vec::new();
        images.push(image);
        Ok(
            DdtFile {
                signature: BINARY_SIGNATURE_DDT,
                usage,
                alpha: tga.image_id[1],
                format,
                mipmap_levels: tga.image_id[3],
                base_height: tga.image_height as u32,
                base_width: tga.image_width as u32,
                images,
            },
        )
    }

    /// The container's bytes: the 16-byte header, the surface table with
    /// offsets laid out one payload after another, then the payloads.
    #[verifier::loop_isolation(false)]
    pub fn to_bytes(&self) -> (r: Vec<u8>)
        requires
            forall|i: int|
                0 <= i < self.images@.len() ==> (#[trigger] self.images@[i]).raw_data@.len()
                    <= u32::MAX,
            16 + 8 * self.images@.len() + spec_ddt_total(self@.images) <= u32::MAX,
        ensures
            r@ == spec_ddt_bytes(self@),
    {
        proof {
            lemma_ddt_total_nonneg(self@.images);
        }
        let ghost imgs = self@.images;
        let count = self.images.len();
        let mut bytes: Vec<u8> = Vec::new();
        push_u32(&mut bytes, self.signature);
        bytes.push(self.usage);
        bytes.push(self.alpha);
        bytes.push(self.format);
        bytes.push(self.mipmap_levels);
        push_u32(&mut bytes, self.base_width);
        push_u32(&mut bytes, self.base_height);
        let ghost header = bytes@;
        proof {
            assert(header =~= u32_le_bytes(self.signature) + seq![
                self.usage,
                self.alpha,
                self.format,
                self.mipmap_levels,
            ] + u32_le_bytes(self.base_width) + u32_le_bytes(self.base_height));
            assert(imgs.skip(0) =~= imgs);
        }
        let mut off: u64 = 16 + 8 * (count as u64);
        let mut i: usize = 0;
        while i < count
            invariant
                i <= count,
                off + spec_ddt_total(imgs.skip(i as int)) == 16 + 8 * count + spec_ddt_total(
                    imgs,
                ),
                bytes@ + spec_ddt_table_bytes(imgs.skip(i as int), off as int) == header
                    + spec_ddt_table_bytes(imgs, 16 + 8 * count),
            decreases count - i,
        {
            proof {
                assert(imgs.skip(i as int)[0] == imgs[i as int]);
                assert(imgs.skip(i as int).skip(1) =~= imgs.skip(i as int + 1));
                lemma_ddt_total_nonneg(imgs.skip(i as int + 1));
            }
            let ghost bytes_prev = bytes@;
            let len: u32 = self.images[i].raw_data.len() as u32;
            push_u32(&mut bytes, (off % 0x1_0000_0000) as u32);
            push_u32(&mut bytes, len);
            proof {
                assert((len as int % 0x1_0000_0000) as u32 == len);
                assert(bytes_prev + spec_ddt_table_bytes(imgs.skip(i as int), off as int)
                    =~= bytes@ + spec_ddt_table_bytes(
                    imgs.skip(i as int + 1),
                    off + imgs[i as int].raw_data.len(),
                ));
            }
            off = off + len as u64;
            i = i + 1;
        }
        proof {
            assert(imgs.skip(count as int) =~= Seq::<DxtImageSpec>::empty());
            assert(bytes@ + Seq::<u8>::empty() =~= bytes@);
        }
        let ghost table_done = bytes@;
        proof {
            assert(imgs.skip(0) =~= imgs);
        }
        let mut i: usize = 0;
        while i < count
            invariant
                i <= count,
                bytes@ + spec_ddt_payload_bytes(imgs.skip(i as int)) == table_done
                    + spec_ddt_payload_bytes(imgs),
            decreases count - i,
        {
            proof {
                assert(imgs.skip(i as int)[0] == imgs[i as int]);
                assert(imgs.skip(i as int).skip(1) =~= imgs.skip(i as int + 1));
            }
            let ghost bytes_prev = bytes@;
            let mut d = self.images[i].raw_data.clone();
            proof {
                assert(d@ =~= imgs[i as int].raw_data);
            }
            bytes.append(&mut d);
            proof {
                assert(bytes_prev + spec_ddt_payload_bytes(imgs.skip(i as int)) =~= bytes@
                    + spec_ddt_payload_bytes(imgs.skip(i as int + 1)));
            }
            i = i + 1;
        }
        proof {
            assert(imgs.skip(count as int) =~= Seq::<DxtImageSpec>::empty());
            assert(bytes@ + Seq::<u8>::empty() =~= bytes@);
        }
        bytes
    }
}

} // verus!
