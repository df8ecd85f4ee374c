use audiometa::id3::{ID3, ID3ParsedTag};
use audiometa::DecodeError;

fn push_frame(buf: &mut Vec<u8>, id: &[u8; 4], encoding: u8, payload: &[u8]) -> usize {
    buf.extend_from_slice(id);
    let field = (payload.len() + 1) as u32;
    buf.extend_from_slice(&field.to_be_bytes());
    buf.extend_from_slice(&[0x00, 0x00]);
    buf.push(encoding);
    buf.extend_from_slice(payload);
    // bytes accounted to the frame area: ten header bytes plus payload
    10 + payload.len()
}

fn id3_header(frames_size: usize) -> Vec<u8> {
    let mut buf: Vec<u8> = Vec::new();
    buf.extend_from_slice(b"ID3");
    buf.push(0x03);
    buf.push(0x00);
    buf.push(0x00);
    let fs = frames_size as u32;
    buf.push(((fs >> 21) & 0x7F) as u8);
    buf.push(((fs >> 14) & 0x7F) as u8);
    buf.push(((fs >> 7) & 0x7F) as u8);
    buf.push((fs & 0x7F) as u8);
    buf
}

#[test]
fn text_frame_strips_trailing_terminator() {
    // a TIT2 frame with encoding byte 0x00 and payload "Hello\0"
    let mut frames: Vec<u8> = Vec::new();
    let consumed = push_frame(&mut frames, b"TIT2", 0x00, b"Hello\0");
    let mut buf = id3_header(consumed);
    buf.extend_from_slice(&frames);
    let t = ID3::from_bytes(&buf).unwrap();
    assert_eq!(t.version, 3);
    assert_eq!(t.revision, 0);
    assert_eq!(t.flags, 0);
    let tags = t.tags();
    assert_eq!(tags.len(), 1);
    match &tags[0] {
        ID3ParsedTag::Text(p) => {
            assert_eq!(p.0, "TIT2");
            assert_eq!(p.1, "Hello");
        },
        _ => panic!("TIT2 must decode as a text frame"),
    }
}

#[test]
fn utf16_text_frame_decodes() {
    // encoding byte 0x01: UTF-16 little endian over the whole payload
    let mut frames: Vec<u8> = Vec::new();
    let consumed = push_frame(&mut frames, b"TALB", 0x01, &[0x48, 0x00, 0x69, 0x00]);
    let mut buf = id3_header(consumed);
    buf.extend_from_slice(&frames);
    let t = ID3::from_bytes(&buf).unwrap();
    match &t.tags()[0] {
        ID3ParsedTag::Text(p) => {
            assert_eq!(p.0, "TALB");
            assert_eq!(p.1, "Hi");
        },
        _ => panic!("TALB must decode as a text frame"),
    }
}

#[test]
fn comment_frame_decodes_language_and_strings() {
    let mut frames: Vec<u8> = Vec::new();
    let consumed = push_frame(&mut frames, b"COMM", 0x00, b"engshort\0long text");
    let mut buf = id3_header(consumed);
    buf.extend_from_slice(&frames);
    let t = ID3::from_bytes(&buf).unwrap();
    match &t.tags()[0] {
        ID3ParsedTag::Comments(c) => {
            assert_eq!(c.language, "eng");
            assert_eq!(c.excerpt, "short");
            assert_eq!(c.content, "long text");
        },
        _ => panic!("COMM must decode as a comment frame"),
    }
}

#[test]
fn attached_picture_decodes() {
    let mut payload: Vec<u8> = Vec::new();
    payload.extend_from_slice(b"image/png\0");
    payload.push(3);
    payload.extend_from_slice(b"front\0");
    payload.extend_from_slice(&[9, 8, 7]);
    let mut frames: Vec<u8> = Vec::new();
    let consumed = push_frame(&mut frames, b"APIC", 0x00, &payload);
    let mut buf = id3_header(consumed);
    buf.extend_from_slice(&frames);
    let t = ID3::from_bytes(&buf).unwrap();
    match &t.tags()[0] {
        ID3ParsedTag::AttachedPicture(a) => {
            assert_eq!(a.mime(), "image/png");
            assert_eq!(a.picture_type, 3);
            assert_eq!(a.description(), "front");
            assert_eq!(a.data(), &[9, 8, 7]);
        },
        _ => panic!("APIC must decode as an attached picture"),
    }
}

#[test]
fn unmatched_ids_stay_raw_and_txxx_is_not_text() {
    let mut frames: Vec<u8> = Vec::new();
    let c1 = push_frame(&mut frames, b"TXXX", 0x00, b"x\0y");
    let c2 = push_frame(&mut frames, b"PRIV", 0x00, &[1, 2]);
    let mut buf = id3_header(c1 + c2);
    buf.extend_from_slice(&frames);
    let t = ID3::from_bytes(&buf).unwrap();
    let tags = t.tags();
    assert_eq!(tags.len(), 2);
    assert!(matches!(&tags[0], ID3ParsedTag::Raw(f) if f.id == b"TXXX"));
    assert!(matches!(&tags[1], ID3ParsedTag::Raw(f) if f.id == b"PRIV"));
}

#[test]
fn frame_loop_stops_at_padding() {
    let mut frames: Vec<u8> = Vec::new();
    let consumed = push_frame(&mut frames, b"TIT2", 0x00, b"A");
    // declared area larger than the one frame; the rest is zero padding
    let mut buf = id3_header(consumed + 20);
    buf.extend_from_slice(&frames);
    buf.extend_from_slice(&[0u8; 20]);
    let t = ID3::from_bytes(&buf).unwrap();
    assert_eq!(t.tags().len(), 1);
}

#[test]
fn frame_crossing_declared_area_is_structural_violation() {
    let mut frames: Vec<u8> = Vec::new();
    let consumed = push_frame(&mut frames, b"TIT2", 0x00, b"Hello");
    // declare a frame area smaller than the frame needs
    let mut buf = id3_header(consumed - 1);
    buf.extend_from_slice(&frames);
    assert!(matches!(
        ID3::from_bytes(&buf),
        Err(DecodeError::StructuralViolation { offset: 10 })
    ));
}

#[test]
fn unrecognized_encoding_byte_is_encoding_violation() {
    let mut frames: Vec<u8> = Vec::new();
    let consumed = push_frame(&mut frames, b"TIT2", 0x05, b"x");
    let mut buf = id3_header(consumed);
    buf.extend_from_slice(&frames);
    assert!(matches!(
        ID3::from_bytes(&buf),
        Err(DecodeError::EncodingViolation { offset: 0 })
    ));
}

#[test]
fn truncated_header_is_bounds_violation() {
    // three bytes of a truncated ID3 header
    assert!(matches!(
        ID3::from_bytes(b"ID3".as_slice()),
        Err(DecodeError::BoundsViolation { offset: 3 })
    ));
}

#[test]
fn utf16_comment_frame_decodes() {
    // encoding byte 0x01: UTF-16 little-endian strings, each terminated
    // by a zero code unit
    let mut payload: Vec<u8> = Vec::new();
    payload.extend_from_slice(b"eng");
    payload.extend_from_slice(&[0x41, 0x00, 0x00, 0x00]); // "A" then terminator
    payload.extend_from_slice(&[0x42, 0x00, 0x43, 0x00]); // "BC", no terminator
    let mut frames: Vec<u8> = Vec::new();
    let consumed = push_frame(&mut frames, b"COMM", 0x01, &payload);
    let mut buf = id3_header(consumed);
    buf.extend_from_slice(&frames);
    let t = ID3::from_bytes(&buf).unwrap();
    match &t.tags()[0] {
        ID3ParsedTag::Comments(c) => {
            assert_eq!(c.language, "eng");
            assert_eq!(c.excerpt, "A");
            assert_eq!(c.content, "BC");
        },
        _ => panic!("COMM must decode as a comment frame"),
    }
}

#[test]
fn v2_frames_come_before_the_v1_trailer() {
    let mut frames: Vec<u8> = Vec::new();
    let consumed = push_frame(&mut frames, b"TIT2", 0x00, b"New\0");
    let mut buf = id3_header(consumed);
    buf.extend_from_slice(&frames);
    buf.extend_from_slice(b"TAG");
    let mut old_title = b"Old".to_vec();
    old_title.resize(30, 0);
    buf.extend_from_slice(&old_title);
    buf.extend_from_slice(&[0u8; 30]); // artist
    buf.extend_from_slice(&[0u8; 30]); // album
    buf.extend_from_slice(b"1984");
    buf.extend_from_slice(&[0u8; 28]); // comment
    buf.push(0); // reserved zero byte
    buf.push(1); // track
    buf.push(0); // genre
    // the title field's first byte is non-zero, so the trailer counts
    let t = ID3::from_bytes(&buf).unwrap();
    let tags = t.tags();
    assert_eq!(tags.len(), 2);
    assert!(matches!(&tags[0], ID3ParsedTag::Text(p) if p.1 == "New"));
    assert!(matches!(&tags[1], ID3ParsedTag::V1Tag(v) if v.title == "Old" && v.year == 1984));
}

#[test]
fn legacy_trailer_with_reserved_zero_byte() {
    // an ID3v2 header with an empty frame area, then a 128-byte ID3v1
    // trailer whose reserved byte is zero: a 28-byte comment field plus
    // a track number
    let mut buf = id3_header(0);
    buf.extend_from_slice(b"TAG");
    let mut field = |text: &[u8], width: usize| {
        let mut f = text.to_vec();
        f.resize(width, 0);
        f
    };
    let title = field(b"Song", 30);
    let artist = field(b"Band", 30);
    let album = field(b"Album", 30);
    buf.extend_from_slice(&title);
    buf.extend_from_slice(&artist);
    buf.extend_from_slice(&album);
    buf.extend_from_slice(b"1999");
    buf.extend_from_slice(&field(b"a comment of twenty-eight ch", 28));
    buf.push(0x00); // reserved zero byte
    buf.push(7); // track number
    buf.push(17); // genre
    let t = ID3::from_bytes(&buf).unwrap();
    let tags = t.tags();
    assert_eq!(tags.len(), 1);
    match &tags[0] {
        ID3ParsedTag::V1Tag(v) => {
            assert_eq!(v.title, "Song");
            assert_eq!(v.artist, "Band");
            assert_eq!(v.album, "Album");
            assert_eq!(v.year, 1999);
            assert_eq!(v.comment, "a comment of twenty-eight ch");
            assert_eq!(v.comment.len(), 28);
            assert_eq!(v.track, Some(7));
            assert_eq!(v.genre, 17);
        },
        _ => panic!("the trailer must decode as an ID3v1 tag"),
    }
}

#[test]
fn legacy_trailer_without_track_number() {
    let mut buf = id3_header(0);
    buf.extend_from_slice(b"TAG");
    let mut field = |text: &[u8], width: usize| {
        let mut f = text.to_vec();
        f.resize(width, 0);
        f
    };
    buf.extend_from_slice(&field(b"T", 30));
    buf.extend_from_slice(&field(b"A", 30));
    buf.extend_from_slice(&field(b"B", 30));
    buf.extend_from_slice(b"abcd"); // a year that fails to parse
    let mut comment = field(b"thirty byte comment", 30);
    comment[28] = b'x'; // make the reserved-position byte non-zero
    buf.extend_from_slice(&comment);
    buf.push(17); // genre
    let t = ID3::from_bytes(&buf).unwrap();
    match &t.tags()[0] {
        ID3ParsedTag::V1Tag(v) => {
            assert_eq!(v.year, 0);
            assert_eq!(v.track, None);
            assert_eq!(v.comment, "thirty byte comment\0\0\0\0\0\0\0\0\0x");
            assert_eq!(v.genre, 17);
        },
        _ => panic!("the trailer must decode as an ID3v1 tag"),
    }
}
