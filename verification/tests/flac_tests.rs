use audiometa::flac::{Flac, FlacParsedBlock};
use audiometa::DecodeError;

fn streaminfo_payload() -> Vec<u8> {
    let mut p: Vec<u8> = Vec::new();
    p.extend_from_slice(&[0x10, 0x00]); // minimum block size 4096
    p.extend_from_slice(&[0x10, 0x00]); // maximum block size 4096
    p.extend_from_slice(&[0x00, 0x00, 0x10]); // minimum frame size 16
    p.extend_from_slice(&[0x00, 0x00, 0x20]); // maximum frame size 32
    // 44100 Hz, 2 channels, 16 bits per sample, 256 total samples
    p.extend_from_slice(&[0x0A, 0xC4, 0x42, 0xF0, 0x00, 0x00, 0x01, 0x00]);
    // audio fingerprint
    p.extend_from_slice(&[
        0x00, 0x01, 0x02, 0x03, 0x04, 0x05, 0x06, 0x07, 0x08, 0x09, 0x0A, 0x0B, 0x0C, 0x0D, 0x0E,
        0x0F,
    ]);
    p
}

fn comment_payload() -> Vec<u8> {
    let mut p: Vec<u8> = Vec::new();
    p.extend_from_slice(&3u32.to_le_bytes());
    p.extend_from_slice(b"xyz");
    p.extend_from_slice(&2u32.to_le_bytes());
    p.extend_from_slice(&10u32.to_le_bytes());
    p.extend_from_slice(b"TITLE=Song");
    p.extend_from_slice(&11u32.to_le_bytes());
    p.extend_from_slice(b"ARTIST=Band");
    p
}

fn picture_payload() -> Vec<u8> {
    let mut p: Vec<u8> = Vec::new();
    p.extend_from_slice(&3u32.to_be_bytes()); // picture type: front cover
    p.extend_from_slice(&9u32.to_be_bytes());
    p.extend_from_slice(b"image/png");
    p.extend_from_slice(&0u32.to_be_bytes()); // empty description
    p.extend_from_slice(&1u32.to_be_bytes()); // width
    p.extend_from_slice(&1u32.to_be_bytes()); // height
    p.extend_from_slice(&24u32.to_be_bytes()); // color depth
    p.extend_from_slice(&0u32.to_be_bytes()); // indexed colors
    p.extend_from_slice(&4u32.to_be_bytes()); // declared image length
    p.extend_from_slice(&[1, 2, 3, 4]);
    p
}

fn push_block(buf: &mut Vec<u8>, id: u8, last: bool, payload: &[u8]) {
    let header = if last { id | 0x80 } else { id };
    buf.push(header);
    let len = payload.len() as u32;
    buf.push((len >> 16) as u8);
    buf.push((len >> 8) as u8);
    buf.push(len as u8);
    buf.extend_from_slice(payload);
}

fn flac_fixture() -> Vec<u8> {
    let mut buf: Vec<u8> = Vec::new();
    buf.extend_from_slice(b"fLaC");
    push_block(&mut buf, 0, false, &streaminfo_payload());
    push_block(&mut buf, 4, false, &comment_payload());
    push_block(&mut buf, 6, true, &picture_payload());
    buf
}

#[test]
fn decodes_streaminfo_fields_exactly() {
    let f = Flac::from_bytes(&flac_fixture()).unwrap();
    let blocks = f.blocks();
    assert_eq!(blocks.len(), 3);
    match &blocks[0] {
        FlacParsedBlock::StreamInfo(s) => {
            assert_eq!(s.minimum_block_size, 4096);
            assert_eq!(s.maximum_block_size, 4096);
            assert_eq!(s.minimum_frame_size, 16);
            assert_eq!(s.maximum_frame_size, 32);
            assert_eq!(s.sample_rate, 44100);
            assert_eq!(s.channels, 2);
            assert_eq!(s.bits_per_sample, 16);
            assert_eq!(s.total_samples, 256);
            assert_eq!(s.md5, "000102030405060708090a0b0c0d0e0f");
        },
        _ => panic!("first block must be STREAMINFO"),
    }
}

#[test]
fn decodes_comment_and_picture_blocks() {
    let f = Flac::from_bytes(&flac_fixture()).unwrap();
    let blocks = f.blocks();
    match &blocks[1] {
        FlacParsedBlock::Comment(c) => {
            assert_eq!(c.vendor(), "xyz");
            assert_eq!(c.comments()[0], ("TITLE".to_string(), "Song".to_string()));
            assert_eq!(c.comments()[1], ("ARTIST".to_string(), "Band".to_string()));
        },
        _ => panic!("second block must be a comment block"),
    }
    match &blocks[2] {
        FlacParsedBlock::Picture(p) => {
            assert_eq!(p.mime(), "image/png");
            assert_eq!(p.description(), "");
            assert_eq!(p.data(), &[1, 2, 3, 4]);
            assert_eq!(p.width, 1);
            assert_eq!(p.height, 1);
            assert_eq!(p.color_depth, 24);
            assert_eq!(p.declared_len, 4);
            assert_eq!(p.picture_type, 3);
        },
        _ => panic!("third block must be a picture block"),
    }
}

#[test]
fn walk_stops_at_block_marked_last() {
    // the block marked last is followed by trailing garbage that must
    // never be read as another block
    let mut buf = flac_fixture();
    buf.extend_from_slice(&[0xDE, 0xAD, 0xBE, 0xEF]);
    let f = Flac::from_bytes(&buf).unwrap();
    assert_eq!(f.blocks().len(), 3);
}

#[test]
fn unknown_block_id_is_preserved_raw() {
    let mut buf: Vec<u8> = Vec::new();
    buf.extend_from_slice(b"fLaC");
    push_block(&mut buf, 9, true, &[0xAA, 0xBB]);
    let f = Flac::from_bytes(&buf).unwrap();
    match &f.blocks()[0] {
        FlacParsedBlock::Raw(b) => {
            assert_eq!(b.id, 9);
            assert!(b.is_last);
            assert_eq!(b.len, 2);
            assert_eq!(b.data, vec![0xAA, 0xBB]);
        },
        _ => panic!("unknown id must stay raw"),
    }
}

#[test]
fn declared_length_past_buffer_is_bounds_violation() {
    let buf = [0x66u8, 0x4C, 0x61, 0x43, 0x80, 0xFF, 0xFF, 0xFF];
    assert!(matches!(
        Flac::from_bytes(&buf),
        Err(DecodeError::BoundsViolation { offset: 8 })
    ));
}

#[test]
fn wrong_signature_is_signature_mismatch() {
    assert!(matches!(
        Flac::from_bytes(b"OggSxxxx".as_slice()),
        Err(DecodeError::SignatureMismatch { offset: 0 })
    ));
    assert!(!Flac::is_format(b"xx"));
    assert!(Flac::is_format(b"fLaC"));
}
