use resource_manager::consts::{
    DDT_FORMAT_BGRA, DDT_FORMAT_DXT1, DDT_FORMAT_DXT5, DDT_FORMAT_GREY, DDT_USAGE_CUBE,
};
use resource_manager::ddt::{DdtError, DdtFile};
use resource_manager::dxt::{DxtImage, Rgb};
use resource_manager::tga::{TgaError, TgaFile};

fn push_u32(out: &mut Vec<u8>, v: u32) {
    out.push((v & 0xFF) as u8);
    out.push(((v >> 8) & 0xFF) as u8);
    out.push(((v >> 16) & 0xFF) as u8);
    out.push(((v >> 24) & 0xFF) as u8);
}

fn ddt_bytes(usage: u8, alpha: u8, format: u8, mips: u8, w: u32, h: u32, surfaces: &[Vec<u8>]) -> Vec<u8> {
    let mut out: Vec<u8> = Vec::new();
    push_u32(&mut out, 0x33535452);
    out.push(usage);
    out.push(alpha);
    out.push(format);
    out.push(mips);
    push_u32(&mut out, w);
    push_u32(&mut out, h);
    let mut offset = 16 + 8 * surfaces.len() as u32;
    for s in surfaces {
        push_u32(&mut out, offset);
        push_u32(&mut out, s.len() as u32);
        offset += s.len() as u32;
    }
    for s in surfaces {
        out.extend_from_slice(s);
    }
    out
}

fn tga_bytes(w: u16, h: u16, depth: u8, pixels: &[u8]) -> Vec<u8> {
    let mut out: Vec<u8> = vec![0, 0, 2, 0, 0, 0, 0, 0, 0, 0, 0, 0];
    out.push((w & 0xFF) as u8);
    out.push((w >> 8) as u8);
    out.push((h & 0xFF) as u8);
    out.push((h >> 8) as u8);
    out.push(depth);
    out.push(0x28);
    out.extend_from_slice(pixels);
    out
}

#[test]
fn enc565_primaries() {
    assert_eq!(DxtImage::enc565_decode(0xF800), Rgb { r: 255, g: 0, b: 0 });
    assert_eq!(DxtImage::enc565_decode(0x07E0), Rgb { r: 0, g: 255, b: 0 });
    assert_eq!(DxtImage::enc565_decode(0x001F), Rgb { r: 0, g: 0, b: 255 });
}

#[test]
fn enc565_round_trip_every_code() {
    for c in 0..=0xFFFFu16 {
        assert_eq!(DxtImage::enc565_encode(DxtImage::enc565_decode(c)), c);
    }
}

#[test]
fn rgb565_to_rgb888_expands_primaries() {
    let (mut r, mut g, mut b) = (0u8, 0u8, 0u8);
    DxtImage::rgb565_to_rgb888(0xF800, &mut r, &mut g, &mut b);
    assert_eq!((r, g, b), (255, 0, 0));
    DxtImage::rgb565_to_rgb888(0x07E0, &mut r, &mut g, &mut b);
    assert_eq!((r, g, b), (0, 255, 0));
    DxtImage::rgb565_to_rgb888(0x001F, &mut r, &mut g, &mut b);
    assert_eq!((r, g, b), (0, 0, 255));
}

#[test]
fn flat_red_block_encodes_to_equal_endpoints() {
    // Sixteen BGRA texels of pure red, one 4x4 DXT1 block.
    let mut data: Vec<u8> = Vec::new();
    for _ in 0..16 {
        data.extend_from_slice(&[0, 0, 255, 255]);
    }
    let block = DxtImage::compress(&data, DDT_FORMAT_DXT1, 0, 4, 4);
    assert_eq!(block, vec![0x00, 0xF8, 0x00, 0xF8, 0x00, 0x00, 0x00, 0x00]);
}

#[test]
fn flat_red_block_round_trips() {
    let mut data: Vec<u8> = Vec::new();
    for _ in 0..16 {
        data.extend_from_slice(&[0, 0, 255, 255]);
    }
    let block = DxtImage::compress(&data, DDT_FORMAT_DXT1, 0, 4, 4);
    let image = DxtImage { width: 4, height: 4, offset: 0, length: 8, raw_data: block };
    let decoded = image.decompress(DDT_FORMAT_DXT1, 0).unwrap();
    assert_eq!(decoded, data);
}

#[test]
fn flat_dxt5_block_round_trips() {
    let mut data: Vec<u8> = Vec::new();
    for _ in 0..16 {
        data.extend_from_slice(&[0, 0, 255, 128]);
    }
    let block = DxtImage::compress(&data, DDT_FORMAT_DXT5, 0, 4, 4);
    assert_eq!(block.len(), 16);
    let image = DxtImage { width: 4, height: 4, offset: 0, length: 16, raw_data: block };
    let decoded = image.decompress(DDT_FORMAT_DXT5, 0).unwrap();
    assert_eq!(decoded, data);
}

#[test]
fn alpha_table_endpoints_and_shape() {
    let wide = DxtImage::alpha_table_dxt5(250, 10);
    assert_eq!(wide[0], 250);
    assert_eq!(wide[1], 10);
    for i in 2..7 {
        assert!(wide[i] > wide[i + 1], "entries must fall strictly");
        assert!(10 < wide[i] && wide[i] < 250);
    }
    let narrow = DxtImage::alpha_table_dxt5(10, 250);
    assert_eq!(narrow[0], 10);
    assert_eq!(narrow[1], 250);
    assert_eq!(narrow[6], 0);
    assert_eq!(narrow[7], 255);
}

#[test]
fn decompress_reports_short_payload() {
    let image = DxtImage { width: 4, height: 4, offset: 0, length: 4, raw_data: vec![0; 4] };
    assert!(image.decompress(DDT_FORMAT_DXT1, 0).is_none());
}

#[test]
fn tga_name_side_channel() {
    let pixels = vec![0u8; 64];
    let data = tga_bytes(4, 4, 32, &pixels);
    let tga = TgaFile::open(&data, b"sky1.(0,0,4,8).tga").unwrap();
    assert_eq!(tga.image_id, [0, 0, 4, 8]);
    assert_eq!(tga.image_width, 4);
    assert_eq!(tga.image_height, 4);
    assert_eq!(tga.raw_data, pixels);

    match TgaFile::open(&data, b"x.tga") {
        Err(err) => {
            assert_eq!(err, TgaError::MalformedName);
            assert_eq!(err.message(), "The TGA file name does not carry DDT metadata.");
        }
        Ok(_) => panic!("a name with a single dot group must be refused"),
    }

    assert!(matches!(TgaFile::open(&data[0..10], b"sky1.(0,0,4,8).tga"), Err(TgaError::UnexpectedEnd)));
}

#[test]
fn tga_save_builds_suffixed_name() {
    let tga = TgaFile::new(4, 4, 0, 0, 4, 8, vec![0u8; 64]);
    let (name, bytes) = tga.save(&b"sky1".to_vec());
    assert_eq!(name, b"sky1.(0,0,4,8).tga".to_vec());
    assert_eq!(bytes.len(), 18 + 64);
    assert_eq!(bytes[2], 2);
    assert_eq!(bytes[16], 32);
    assert_eq!(bytes[17], 0x28);
}

#[test]
fn convert_tga_to_ddt() {
    let mut pixels: Vec<u8> = Vec::new();
    for _ in 0..16 {
        pixels.extend_from_slice(&[0, 0, 255, 255]);
    }
    let data = tga_bytes(4, 4, 32, &pixels);
    let tga = TgaFile::open(&data, b"sky1.(0,0,4,8).tga").unwrap();
    let ddt = DdtFile::from_tga(&tga).unwrap();
    assert_eq!(ddt.signature, 0x33535452);
    assert_eq!(ddt.usage, 0);
    assert_eq!(ddt.alpha, 0);
    assert_eq!(ddt.format, DDT_FORMAT_DXT1);
    assert_eq!(ddt.mipmap_levels, 8);
    assert_eq!(ddt.base_width, 4);
    assert_eq!(ddt.base_height, 4);
    assert_eq!(ddt.images.len(), 1);
    assert_eq!(ddt.images[0].raw_data, vec![0x00, 0xF8, 0x00, 0xF8, 0x00, 0x00, 0x00, 0x00]);
}

#[test]
fn convert_ddt_to_tga() {
    let payload: Vec<u8> = (0u16..32).map(|i| i as u8).collect();
    let data = ddt_bytes(0, 0, DDT_FORMAT_BGRA, 1, 4, 2, &[payload.clone()]);
    let ddt = DdtFile::read(&data).unwrap();
    let tga = ddt.to_tga().unwrap();
    assert_eq!(tga.image_width, 4);
    assert_eq!(tga.image_height, 2);
    assert_eq!(tga.pixel_depth, 32);
    assert_eq!(tga.raw_data, payload);
    assert_eq!(tga.image_id, [0, 0, DDT_FORMAT_BGRA, 1]);
}

#[test]
fn ddt_cubemap_layout() {
    // A cube texture with one mip level carries six equal surfaces.
    let faces: Vec<Vec<u8>> = (0..6).map(|f| vec![f as u8; 32]).collect();
    let data = ddt_bytes(DDT_USAGE_CUBE, 0, DDT_FORMAT_BGRA, 1, 4, 2, &faces);
    let ddt = DdtFile::read(&data).unwrap();
    assert_eq!(ddt.images.len(), 6);
    for img in &ddt.images {
        assert_eq!((img.width, img.height), (4, 2));
    }

    // Without the cube bit, three mips halve the sides, clamped at one.
    let mips: Vec<Vec<u8>> = vec![vec![0; 64], vec![0; 16], vec![0; 4]];
    let data = ddt_bytes(0, 0, DDT_FORMAT_BGRA, 3, 4, 4, &mips);
    let ddt = DdtFile::read(&data).unwrap();
    assert_eq!(ddt.images.len(), 3);
    assert_eq!((ddt.images[0].width, ddt.images[0].height), (4, 4));
    assert_eq!((ddt.images[1].width, ddt.images[1].height), (2, 2));
    assert_eq!((ddt.images[2].width, ddt.images[2].height), (1, 1));
}

#[test]
fn ddt_raw_round_trip() {
    // BGRA and greyscale payloads survive decode then encode bit for bit.
    for format in [DDT_FORMAT_BGRA, DDT_FORMAT_GREY] {
        let payload: Vec<u8> = (0u16..32).map(|i| (i * 3) as u8).collect();
        let data = ddt_bytes(0, 0, format, 1, 4, 2, &[payload.clone()]);
        let ddt = DdtFile::read(&data).unwrap();
        let decoded = ddt.decode().unwrap();
        assert_eq!(decoded, payload);
        let encoded = DdtFile::encode(&decoded, 4, 2, 0, format).unwrap();
        assert_eq!(encoded, payload);
    }
}

#[test]
fn ddt_rejects_bad_input() {
    assert!(matches!(DdtFile::read(&[1, 2, 3, 4]), Err(DdtError::NotValidDdtSignature)));
    assert!(matches!(DdtFile::read(&[0x52, 0x54, 0x53, 0x33, 0]), Err(DdtError::UnexpectedEnd)));

    // An unknown format code is read fine but refused on decode.
    let data = ddt_bytes(0, 0, 3, 1, 4, 2, &[vec![0; 32]]);
    let ddt = DdtFile::read(&data).unwrap();
    let err = ddt.decode().unwrap_err();
    assert_eq!(err, DdtError::NotValidDdtFormat);
    assert_eq!(err.message(), "Unknown DDT format.");
}

#[test]
fn ddt_serialization_keeps_payloads() {
    let payload: Vec<u8> = (0u16..32).map(|i| i as u8).collect();
    let data = ddt_bytes(0, 0, DDT_FORMAT_BGRA, 1, 4, 2, &[payload.clone()]);
    let ddt = DdtFile::read(&data).unwrap();
    let bytes = ddt.to_bytes();
    assert_eq!(bytes, data);
    let reread = DdtFile::read(&bytes).unwrap();
    assert_eq!(reread.images[0].raw_data, payload);
}

#[test]
fn dxt1_four_color_block_decodes() {
    // A hand-built block with distinct endpoints: index 0 picks c0, index 1
    // picks c1; red and blue expand through the precise formula.
    let block: Vec<u8> = vec![0x00, 0xF8, 0x1F, 0x00, 0b01000100, 0b0001_0001, 0, 0b0100_0000];
    let image = DxtImage { width: 4, height: 4, offset: 0, length: 8, raw_data: block };
    let decoded = image.decompress(DDT_FORMAT_DXT1, 0).unwrap();
    // Texel 0 has index 0: pure red in BGRA with full alpha.
    assert_eq!(&decoded[0..4], &[0, 0, 255, 255]);
    // Texel 1 has index 1: pure blue.
    assert_eq!(&decoded[4..8], &[255, 0, 0, 255]);
}

#[test]
fn two_block_row_keeps_block_order() {
    // An 8x4 image: the left block pure red, the right block pure blue.
    let mut data: Vec<u8> = Vec::new();
    for _row in 0..4 {
        for _ in 0..4 {
            data.extend_from_slice(&[0, 0, 255, 255]);
        }
        for _ in 0..4 {
            data.extend_from_slice(&[255, 0, 0, 255]);
        }
    }
    let encoded = DxtImage::compress(&data, DDT_FORMAT_DXT1, 0, 8, 4);
    assert_eq!(encoded.len(), 16);
    assert_eq!(&encoded[0..8], &[0x00, 0xF8, 0x00, 0xF8, 0, 0, 0, 0]);
    assert_eq!(&encoded[8..16], &[0x1F, 0x00, 0x1F, 0x00, 0, 0, 0, 0]);
    let image = DxtImage { width: 8, height: 4, offset: 0, length: 16, raw_data: encoded };
    assert_eq!(image.decompress(DDT_FORMAT_DXT1, 0).unwrap(), data);
}

#[test]
fn flat_dxt3_block_round_trips() {
    // 0x77 sits exactly on a nibble boundary, so its alpha survives DXT3.
    let mut data: Vec<u8> = Vec::new();
    for _ in 0..16 {
        data.extend_from_slice(&[0, 0, 255, 0x77]);
    }
    let block = DxtImage::compress(&data, resource_manager::consts::DDT_FORMAT_DXT3, 0, 4, 4);
    assert_eq!(block.len(), 16);
    let image = DxtImage { width: 4, height: 4, offset: 0, length: 16, raw_data: block };
    let decoded = image.decompress(resource_manager::consts::DDT_FORMAT_DXT3, 0).unwrap();
    assert_eq!(decoded, data);
}
