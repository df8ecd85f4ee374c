use audiometa::vorbis_comment::{encode_vorbis_comment, VorbisComment};
use audiometa::DecodeError;

fn le32(v: u32) -> [u8; 4] {
    v.to_le_bytes()
}

#[test]
fn decode_vendor_and_pairs() {
    let mut b: Vec<u8> = Vec::new();
    b.extend_from_slice(&le32(4));
    b.extend_from_slice(b"vend");
    b.extend_from_slice(&le32(2));
    b.extend_from_slice(&le32(10));
    b.extend_from_slice(b"TITLE=Song");
    b.extend_from_slice(&le32(11));
    b.extend_from_slice(b"ARTIST=Band");
    let vc = VorbisComment::new(&b).unwrap();
    assert_eq!(vc.vendor(), "vend");
    let c = vc.comments();
    assert_eq!(c.len(), 2);
    assert_eq!(c[0], ("TITLE".to_string(), "Song".to_string()));
    assert_eq!(c[1], ("ARTIST".to_string(), "Band".to_string()));
}

#[test]
fn value_may_contain_equals_sign() {
    let mut b: Vec<u8> = Vec::new();
    b.extend_from_slice(&le32(0));
    b.extend_from_slice(&le32(1));
    b.extend_from_slice(&le32(5));
    b.extend_from_slice(b"K=a=b");
    let vc = VorbisComment::new(&b).unwrap();
    assert_eq!(vc.comments()[0], ("K".to_string(), "a=b".to_string()));
}

#[test]
fn comment_without_delimiter_is_structural_violation() {
    let mut b: Vec<u8> = Vec::new();
    b.extend_from_slice(&le32(0));
    b.extend_from_slice(&le32(1));
    b.extend_from_slice(&le32(5));
    b.extend_from_slice(b"NOKEY");
    assert!(matches!(
        VorbisComment::new(&b),
        Err(DecodeError::StructuralViolation { offset: 12 })
    ));
}

#[test]
fn truncated_comment_list_is_tolerated() {
    // declared count 5, only one comment present: decoding stops at the end
    let mut b: Vec<u8> = Vec::new();
    b.extend_from_slice(&le32(2));
    b.extend_from_slice(b"ab");
    b.extend_from_slice(&le32(5));
    b.extend_from_slice(&le32(3));
    b.extend_from_slice(b"a=b");
    let vc = VorbisComment::new(&b).unwrap();
    assert_eq!(vc.comments().len(), 1);
}

#[test]
fn truncated_vendor_is_bounds_violation() {
    let mut b: Vec<u8> = Vec::new();
    b.extend_from_slice(&le32(100));
    b.extend_from_slice(b"abc");
    assert!(matches!(
        VorbisComment::new(&b),
        Err(DecodeError::BoundsViolation { offset: 4 })
    ));
}

#[test]
fn round_trip_reproduces_vendor_and_ordered_pairs() {
    let pairs = vec![
        ("TITLE".to_string(), "A Song".to_string()),
        ("ARTIST".to_string(), "A Band".to_string()),
        ("TITLE".to_string(), "Same key again".to_string()),
    ];
    let wire = encode_vorbis_comment("my vendor", &pairs).unwrap();
    let vc = VorbisComment::new(&wire).unwrap();
    assert_eq!(vc.vendor(), "my vendor");
    assert_eq!(vc.comments().as_slice(), pairs.as_slice());
}

#[test]
fn round_trip_keeps_non_ascii_text() {
    let pairs = vec![("TITLE".to_string(), "风声之焚".to_string())];
    let wire = encode_vorbis_comment("vend\u{00e9}", &pairs).unwrap();
    let vc = VorbisComment::new(&wire).unwrap();
    assert_eq!(vc.vendor(), "vend\u{00e9}");
    assert_eq!(vc.comments().as_slice(), pairs.as_slice());
}

#[test]
fn key_with_equals_sign_cannot_be_encoded() {
    let pairs = vec![("BAD=KEY".to_string(), "v".to_string())];
    assert!(encode_vorbis_comment("v", &pairs).is_none());
}
