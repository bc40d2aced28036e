use resource_manager::bar::{BarFile, BarSourceFile, BarError};
use resource_manager::consts::{
    BAR_VERSION_AOE3, BAR_VERSION_AOE3DE, ENCODE_TYPE_NONE, ENCODE_TYPE_SND,
};
use resource_manager::{classify_signature, InputKind};

fn utf16le(s: &str) -> Vec<u8> {
    let mut out: Vec<u8> = Vec::new();
    for unit in s.encode_utf16() {
        out.push((unit & 0xFF) as u8);
        out.push((unit >> 8) as u8);
    }
    out
}

fn sample_files() -> Vec<BarSourceFile> {
    vec![
        BarSourceFile { file_name: utf16le("a.txt"), data: vec![1, 2, 3, 4] },
        BarSourceFile { file_name: utf16le("b.bin"), data: vec![9, 8, 7, 6, 5] },
    ]
}

#[test]
fn create_and_open_de_bar() {
    let files = sample_files();
    let root = utf16le("root\\");
    let (bar, bytes) = BarFile::create(&files, &root, BAR_VERSION_AOE3DE);
    assert_eq!(bar.version, BAR_VERSION_AOE3DE);
    assert_eq!(bar.file_count, 2);
    assert_eq!(bar.files_table_offset, 304 + 4 + 5);
    assert_eq!(bar.entries[0].offset, 304);
    assert_eq!(bar.entries[1].offset, 308);
    assert_eq!(bar.entries[0].file_size2, 4);
    assert_eq!(bar.entries[1].file_size2, 5);
    assert_eq!(bar.entries[0].is_encoded, ENCODE_TYPE_NONE);

    let reopened = BarFile::open(&bytes).unwrap();
    assert_eq!(reopened.version, BAR_VERSION_AOE3DE);
    assert_eq!(reopened.file_count, 2);
    assert_eq!(reopened.root_path, root);
    assert_eq!(reopened.entries.len(), 2);
    assert_eq!(reopened.entries[0].offset, 304);
    assert_eq!(reopened.entries[0].file_name, utf16le("a.txt"));
    assert_eq!(reopened.entries[1].file_name, utf16le("b.bin"));
    let p0 = reopened.entries[0].read_payload(&bytes).unwrap();
    let p1 = reopened.entries[1].read_payload(&bytes).unwrap();
    assert_eq!(p0, vec![1, 2, 3, 4]);
    assert_eq!(p1, vec![9, 8, 7, 6, 5]);
}

#[test]
fn create_and_open_legacy_bar() {
    let files = sample_files();
    let root = utf16le("test\\");
    let (bar, bytes) = BarFile::create(&files, &root, BAR_VERSION_AOE3);
    assert_eq!(bar.files_table_offset, 292 + 9);
    let reopened = BarFile::open(&bytes).unwrap();
    assert_eq!(reopened.version, BAR_VERSION_AOE3);
    assert_eq!(reopened.entries.len(), 2);
    assert_eq!(reopened.entries[0].offset, 292);
    assert_eq!(reopened.entries[1].offset, 296);
    // Legacy entries carry no encoding class on the wire.
    assert_eq!(reopened.entries[0].is_encoded, 0);
    assert_eq!(
        reopened.entries[1].read_payload(&bytes).unwrap(),
        vec![9, 8, 7, 6, 5]
    );
}

#[test]
fn archive_round_trip_payloads() {
    // Open, extract raw, re-create: payloads and offset order survive.
    let files = sample_files();
    let root = utf16le("root\\");
    let (_, bytes) = BarFile::create(&files, &root, BAR_VERSION_AOE3DE);
    let bar = BarFile::open(&bytes).unwrap();
    let mut extracted: Vec<BarSourceFile> = Vec::new();
    for entry in &bar.entries {
        extracted.push(BarSourceFile {
            file_name: entry.file_name.clone(),
            data: entry.read_payload(&bytes).unwrap(),
        });
    }
    let (bar2, bytes2) = BarFile::create(&extracted, &bar.root_path, BAR_VERSION_AOE3);
    assert_eq!(bar2.entries.len(), bar.entries.len());
    for (i, entry) in bar2.entries.iter().enumerate() {
        let payload = entry.read_payload(&bytes2).unwrap();
        assert_eq!(payload, extracted[i].data);
        if i > 0 {
            assert!(bar2.entries[i - 1].offset < entry.offset);
        }
    }
}

#[test]
fn open_rejects_bad_header() {
    let files = sample_files();
    let root = utf16le("root\\");
    let (_, bytes) = BarFile::create(&files, &root, BAR_VERSION_AOE3DE);
    assert_eq!(&bytes[0..4], &[0x45, 0x53, 0x50, 0x4E]);
    assert_eq!(&bytes[8..12], &[0x11, 0x22, 0x33, 0x44]);

    let mut bad_sig = bytes.clone();
    bad_sig[0] = 0;
    assert!(matches!(BarFile::open(&bad_sig), Err(BarError::NotValidBarSignature)));

    let mut bad_version = bytes.clone();
    bad_version[4] = 9;
    assert!(matches!(
        BarFile::open(&bad_version),
        Err(BarError::NotSupportedBarVersion)
    ));

    let mut bad_magic = bytes.clone();
    bad_magic[8] = 0;
    assert!(matches!(BarFile::open(&bad_magic), Err(BarError::NotValidBarMagic)));

    let mut bad_count = bytes.clone();
    bad_count[280] = 3;
    assert!(matches!(BarFile::open(&bad_count), Err(BarError::NotMatchedEntryCount)));

    assert!(matches!(BarFile::open(&bytes[0..3]), Err(BarError::UnexpectedEnd)));
}

#[test]
fn create_classifies_encoded_sound() {
    let files = vec![BarSourceFile {
        file_name: utf16le("sound.wav"),
        data: vec![0x6D, 0x8C, 0x42, 0xB4, 0, 0, 0, 0],
    }];
    let root = utf16le("root\\");
    let (bar, _) = BarFile::create(&files, &root, BAR_VERSION_AOE3DE);
    assert_eq!(bar.entries[0].is_encoded, ENCODE_TYPE_SND);
}

#[test]
fn decode_sound_scenario() {
    // One obfuscated block whose plaintext starts with the RIFF magic.
    let data: Vec<u8> = vec![0x6D, 0x8C, 0x42, 0xB4, 0, 0, 0, 0];
    let decoded = BarFile::decode_sound(&data).unwrap();
    assert_eq!(&decoded[0..4], &[0x52, 0x49, 0x46, 0x46]);
    assert_eq!(decoded, vec![0x52, 0x49, 0x46, 0x46, 0xAC, 0x33, 0xC3, 0xCE]);
}

#[test]
fn decode_sound_rejects_bad_signature() {
    let data: Vec<u8> = vec![0, 0, 0, 0, 0, 0, 0, 0];
    let err = BarFile::decode_sound(&data).unwrap_err();
    assert_eq!(err, BarError::NotValidDecodedWavSignature);
    assert_eq!(err.message(), "Decoded sound has a wrong WAV signature.");
}

#[test]
fn sound_cipher_is_an_involution() {
    let data: Vec<u8> = (0u16..48).map(|i| (i * 7 % 256) as u8).collect();
    let once = BarFile::apply_sound_cipher(&data);
    assert_ne!(once, data);
    let twice = BarFile::apply_sound_cipher(&once);
    assert_eq!(twice, data);

    // Lengths that are not multiples of eight still come back unchanged.
    let odd: Vec<u8> = vec![1, 2, 3, 4, 5];
    assert_eq!(
        BarFile::apply_sound_cipher(&BarFile::apply_sound_cipher(&odd)),
        odd
    );
}

#[test]
fn entry_path_joins_root_and_name() {
    let files = sample_files();
    let root = utf16le("root\\");
    let (bar, _) = BarFile::create(&files, &root, BAR_VERSION_AOE3DE);
    let path = bar.entries[0].get_path(&bar.root_path).unwrap();
    assert_eq!(path, "root\\a.txt");

    // An entry whose name is a lone surrogate has no path.
    let mut broken = BarFile::open(&{ let (_, b) = BarFile::create(&files, &root, BAR_VERSION_AOE3DE); b }).unwrap();
    broken.entries[0].file_name = vec![0x00, 0xD8];
    assert_eq!(
        broken.entries[0].get_path(&broken.root_path).unwrap_err(),
        BarError::MalformedName
    );
}

#[test]
fn utf16_name_decoding() {
    assert_eq!(
        BarFile::vec_u8_to_string_u16(&utf16le("sky1")).unwrap(),
        "sky1"
    );
    // A lone high surrogate is not valid UTF-16.
    assert_eq!(BarFile::vec_u8_to_string_u16(&[0x00, 0xD8]), None);
}

#[test]
fn csv_manifest_layout() {
    let files = sample_files();
    let root = utf16le("root\\");
    let (bar, _) = BarFile::create(&files, &root, BAR_VERSION_AOE3DE);
    let csv = bar.to_csv().unwrap();
    let expected = "#\t\"file_name\"\t\"file_size\"1\ta.txt\t4\t\n2\tb.bin\t5";
    assert_eq!(csv, expected.as_bytes());
}

#[test]
fn classify_signature_dispatch() {
    assert_eq!(classify_signature(0x4E505345), InputKind::Bar);
    assert_eq!(classify_signature(0x33535452), InputKind::Ddt);
    assert_eq!(classify_signature(0xB4428C6D), InputKind::EncodedSound);
    assert_eq!(classify_signature(0x347A6C61), InputKind::CompressedStream);
    assert_eq!(classify_signature(0x6C333374), InputKind::CompressedStream);
    assert_eq!(classify_signature(0x12345678), InputKind::Other);
}

#[test]
fn get_file_signature_reads_head() {
    let data = vec![0x45, 0x53, 0x50, 0x4E, 0xFF];
    assert_eq!(resource_manager::bar::get_file_signature(&data, 4), 0x4E505345);
}
