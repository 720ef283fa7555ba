use runtime_cache::{unpack_blob, UnpackError};
use std::io::Read;

const PRELOAD: &[u8] = b"// preload\n";
const ADDON: &[u8] = b"\x7fELF-fake-addon";

fn make_test_archive() -> Vec<u8> {
    let mut builder = tar::Builder::new(Vec::new());
    let mut header = tar::Header::new_gnu();
    header.set_size(PRELOAD.len() as u64);
    header.set_mode(0o644);
    header.set_cksum();
    builder.append_data(&mut header, "preload.mjs", PRELOAD).unwrap();

    let mut header = tar::Header::new_gnu();
    header.set_size(ADDON.len() as u64);
    header.set_mode(0o644);
    header.set_cksum();
    builder.append_data(&mut header, "addons/nub-native.node", ADDON).unwrap();
    builder.into_inner().unwrap()
}

fn make_test_blob() -> Vec<u8> {
    zstd::encode_all(&make_test_archive()[..], 19).unwrap()
}

#[test]
fn blob_roundtrips_to_the_sidecar_layout() {
    let archive = unpack_blob(&make_test_blob()).unwrap();
    let mut found = Vec::new();
    for entry in tar::Archive::new(&archive[..]).entries().unwrap() {
        let mut entry = entry.unwrap();
        let path = entry.path().unwrap().to_str().unwrap().to_string();
        let mut content = Vec::new();
        entry.read_to_end(&mut content).unwrap();
        found.push((path, content));
    }
    assert_eq!(found.len(), 2);
    assert_eq!(found[0].0, "preload.mjs");
    assert_eq!(String::from_utf8(found[0].1.clone()).unwrap(), "// preload\n");
    assert_eq!(found[1].0, "addons/nub-native.node");
    assert_eq!(found[1].1, ADDON);
}

#[test]
fn blob_inflates_to_the_archive_it_was_made_of() {
    let blob = make_test_blob();
    let archive = unpack_blob(&blob).unwrap();
    assert_eq!(archive, make_test_archive());
    assert_ne!(archive, blob);
}

#[test]
fn only_the_first_frame_is_read() {
    let mut blob = make_test_blob();
    blob.extend_from_slice(b"trailing bytes");
    assert_eq!(unpack_blob(&blob).unwrap(), make_test_archive());
}

fn header_text(blob: &[u8]) -> String {
    match unpack_blob(blob) {
        Err(UnpackError::Header { text }) => text,
        other => panic!("the header must be refused: {:?}", other),
    }
}

fn decoder_text(blob: &[u8]) -> String {
    match ruzstd::decoding::StreamingDecoder::new(blob) {
        Ok(_) => panic!("the decoder must refuse the header"),
        Err(error) => error.to_string(),
    }
}

#[test]
fn blob_without_the_magic_number_is_refused_with_the_decoders_text() {
    let mut wrong_first_byte = make_test_blob();
    assert_eq!(&wrong_first_byte[..4], &[0x28, 0xb5, 0x2f, 0xfd]);
    wrong_first_byte[0] = 0x29;
    for blob in [b"not-zstd!".to_vec(), wrong_first_byte, make_test_archive()] {
        let text = header_text(&blob);
        assert!(!text.is_empty());
        assert_eq!(text, decoder_text(&blob));
    }
    assert_ne!(header_text(b"not-zstd!"), header_text(b"nor-zstd!"));
}

#[test]
fn blob_too_short_for_a_header_is_refused() {
    assert_eq!(header_text(&[]), decoder_text(&[]));
    let blob = make_test_blob();
    assert_eq!(header_text(&blob[..4]), decoder_text(&blob[..4]));
}

#[test]
fn frame_that_breaks_off_is_a_content_error() {
    let blob = make_test_blob();
    let broken = &blob[..blob.len() / 2];
    match unpack_blob(broken) {
        Err(UnpackError::Content { text, prefix }) => {
            let mut decoder = ruzstd::decoding::StreamingDecoder::new(broken).unwrap();
            let error = decoder.read_to_end(&mut Vec::new()).unwrap_err();
            assert!(!text.is_empty());
            assert_eq!(text, error.to_string());
            assert!(make_test_archive().starts_with(&prefix));
        }
        other => panic!("the frame must break off: {:?}", other),
    }
}

/// A frame with a window of one kilobyte and raw blocks of one kilobyte, none of which is
/// marked as the last.
fn broken_after(blocks: &[[u8; 1024]]) -> Vec<u8> {
    let mut blob = vec![0x28, 0xb5, 0x2f, 0xfd, 0x00, 0x00];
    for block in blocks {
        // The size, then two bits for a raw block, then one for the last.
        let header = (1024u32 << 3).to_le_bytes();
        blob.extend_from_slice(&header[..3]);
        blob.extend_from_slice(block);
    }
    blob
}

#[test]
fn content_error_hands_on_what_came_before_the_break() {
    let blob = broken_after(&[[1; 1024], [2; 1024], [3; 1024]]);
    match unpack_blob(&blob) {
        Err(UnpackError::Content { prefix, .. }) => {
            // The decoder holds a window back.
            let mut expected = vec![1u8; 1024];
            expected.extend_from_slice(&[2u8; 1024]);
            assert_eq!(prefix, expected);
        }
        other => panic!("the frame must break off: {:?}", other),
    }
}

#[test]
fn archive_that_ends_before_the_break_is_whole() {
    let mut archive = make_test_archive();
    archive.resize(archive.len().div_ceil(1024) * 1024 + 2048, 0);
    let mut blocks = Vec::new();
    for chunk in archive.chunks(1024) {
        let mut block = [0u8; 1024];
        block.copy_from_slice(chunk);
        blocks.push(block);
    }
    match unpack_blob(&broken_after(&blocks)) {
        Err(UnpackError::Content { prefix, .. }) => {
            let entries = tar::Archive::new(&prefix[..]).entries().unwrap().count();
            assert_eq!(entries, 2);
        }
        other => panic!("the frame must break off: {:?}", other),
    }
}
