use audiometa::reader::ByteReader;
use audiometa::DecodeError;

#[test]
fn read_integers_both_endians() {
    let data = [0x12u8, 0x34, 0x56, 0x78, 0x9A, 0xBC, 0xDE, 0xF0];
    let mut r = ByteReader::new(&data);
    assert_eq!(r.read_u16(true).unwrap(), 0x1234);
    assert_eq!(r.read_u16(false).unwrap(), 0x7856);
    assert_eq!(r.read_u32(true).unwrap(), 0x9ABCDEF0);
    assert!(r.is_end());
}

#[test]
fn read_u64_and_i32() {
    let data = [0x01u8, 0x02, 0x03, 0x04, 0x05, 0x06, 0x07, 0x08];
    let mut r = ByteReader::new(&data);
    assert_eq!(r.read_u64(true).unwrap(), 0x0102030405060708);
    let neg = [0xFFu8, 0xFF, 0xFF, 0xFE];
    let mut r2 = ByteReader::new(&neg);
    assert_eq!(r2.read_i32(true).unwrap(), -2);
    let pos = [0x00u8, 0x00, 0x00, 0x2A];
    let mut r3 = ByteReader::new(&pos);
    assert_eq!(r3.read_i32(true).unwrap(), 42);
}

#[test]
fn read_past_end_is_bounds_violation() {
    let data = [0x01u8, 0x02];
    let mut r = ByteReader::new(&data);
    assert_eq!(r.read_u32(true), Err(DecodeError::BoundsViolation { offset: 0 }));
    assert_eq!(r.offset(), 0);
    assert_eq!(r.read_u16(true).unwrap(), 0x0102);
    assert_eq!(r.read_u8(), Err(DecodeError::BoundsViolation { offset: 2 }));
}

#[test]
fn peek_does_not_advance() {
    let data = [0x01u8, 0x02, 0x03];
    let mut r = ByteReader::new(&data);
    assert_eq!(r.peek(2).unwrap(), &[0x01, 0x02]);
    assert_eq!(r.offset(), 0);
    r.skip(1).unwrap();
    assert_eq!(r.peek(2).unwrap(), &[0x02, 0x03]);
    assert_eq!(r.peek_range(0, 3).unwrap(), &[0x01, 0x02, 0x03]);
}

#[test]
fn seek_from_end_repositions() {
    let data = [0x01u8, 0x02, 0x03, 0x04, 0x05];
    let mut r = ByteReader::new(&data);
    r.seek_from_end(2).unwrap();
    assert_eq!(r.offset(), 3);
    assert_eq!(r.read_u8().unwrap(), 0x04);
    assert!(r.seek_from_end(6).is_err());
}

#[test]
fn utf8_fixed_and_until_nul() {
    let data = b"Hi\0World";
    let mut r = ByteReader::new(data);
    assert_eq!(r.read_utf8_until_nul().unwrap(), "Hi");
    assert_eq!(r.offset(), 3);
    assert_eq!(r.read_utf8_fixed(5).unwrap(), "World");
    // no terminator: the rest of the buffer is the string
    let tail = b"end";
    let mut r2 = ByteReader::new(tail);
    assert_eq!(r2.read_utf8_until_nul().unwrap(), "end");
    assert!(r2.is_end());
}

#[test]
fn utf8_invalid_is_encoding_violation() {
    let data = [0xFFu8, 0xFE, 0x41];
    let mut r = ByteReader::new(&data);
    assert_eq!(
        r.read_utf8_fixed(3),
        Err(DecodeError::EncodingViolation { offset: 0 })
    );
    assert_eq!(r.offset(), 0);
}

#[test]
fn utf16_fixed_both_endians() {
    // "Hi" little endian
    let le = [0x48u8, 0x00, 0x69, 0x00];
    let mut r = ByteReader::new(&le);
    assert_eq!(r.read_utf16_fixed(4, true).unwrap(), "Hi");
    // "Hi" big endian
    let be = [0x00u8, 0x48, 0x00, 0x69];
    let mut r2 = ByteReader::new(&be);
    assert_eq!(r2.read_utf16_fixed(4, false).unwrap(), "Hi");
    // surrogate pair U+1D11E (musical G clef), little endian
    let clef = [0x34u8, 0xD8, 0x1E, 0xDD];
    let mut r3 = ByteReader::new(&clef);
    assert_eq!(r3.read_utf16_fixed(4, true).unwrap(), "\u{1D11E}");
}

#[test]
fn utf16_until_nul_pair() {
    let le = [0x41u8, 0x00, 0x00, 0x00, 0x42, 0x00];
    let mut r = ByteReader::new(&le);
    assert_eq!(r.read_utf16_until_nul_pair(true).unwrap(), "A");
    assert_eq!(r.offset(), 4);
    assert_eq!(r.read_utf16_until_nul_pair(true).unwrap(), "B");
    assert!(r.is_end());
}

#[test]
fn utf16_lone_surrogate_is_encoding_violation() {
    let le = [0x34u8, 0xD8, 0x41, 0x00];
    let mut r = ByteReader::new(&le);
    assert_eq!(
        r.read_utf16_fixed(4, true),
        Err(DecodeError::EncodingViolation { offset: 0 })
    );
}
