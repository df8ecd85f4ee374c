use audiometa::base64::b64_decode;
use audiometa::crc32::crc32;
use audiometa::summary::parse;

#[test]
fn decodes_standard_groups_and_padding() {
    assert_eq!(b64_decode(b"TWFu").unwrap(), b"Man");
    assert_eq!(b64_decode(b"TWE=").unwrap(), b"Ma");
    assert_eq!(b64_decode(b"TQ==").unwrap(), b"M");
    assert_eq!(b64_decode(b"").unwrap(), Vec::<u8>::new());
    assert_eq!(b64_decode(b"AAECAwQ=").unwrap(), vec![0, 1, 2, 3, 4]);
}

#[test]
fn rejects_malformed_base64() {
    assert!(b64_decode(b"TWF").is_none()); // not a multiple of four
    assert!(b64_decode(b"T!!u").is_none()); // invalid digit
    assert!(b64_decode(b"TW==TWFu").is_none()); // padding before the end
    assert!(b64_decode(b"=AAA").is_none()); // padding in a leading digit
}

const ALPHABET: &[u8; 64] = b"ABCDEFGHIJKLMNOPQRSTUVWXYZabcdefghijklmnopqrstuvwxyz0123456789+/";

fn b64_encode(data: &[u8]) -> String {
    let mut out = String::new();
    for chunk in data.chunks(3) {
        let b0 = chunk[0] as u32;
        let b1 = *chunk.get(1).unwrap_or(&0) as u32;
        let b2 = *chunk.get(2).unwrap_or(&0) as u32;
        let v = (b0 << 16) | (b1 << 8) | b2;
        out.push(ALPHABET[(v >> 18) as usize & 63] as char);
        out.push(ALPHABET[(v >> 12) as usize & 63] as char);
        if chunk.len() > 1 {
            out.push(ALPHABET[(v >> 6) as usize & 63] as char);
        } else {
            out.push('=');
        }
        if chunk.len() > 2 {
            out.push(ALPHABET[v as usize & 63] as char);
        } else {
            out.push('=');
        }
    }
    out
}

#[test]
fn ogg_cover_comes_from_encoded_picture_comment() {
    // a FLAC PICTURE structure carried base64-encoded in an OGG comment
    let mut pic: Vec<u8> = Vec::new();
    pic.extend_from_slice(&3u32.to_be_bytes());
    pic.extend_from_slice(&9u32.to_be_bytes());
    pic.extend_from_slice(b"image/png");
    pic.extend_from_slice(&0u32.to_be_bytes());
    pic.extend_from_slice(&[0u8; 20]);
    pic.extend_from_slice(&[42, 43]);
    let encoded = b64_encode(&pic);

    let build_page = |flags: u8, sequence: u32, payload: &[u8]| -> Vec<u8> {
        let mut page: Vec<u8> = Vec::new();
        page.extend_from_slice(b"OggS");
        page.push(0);
        page.push(flags);
        page.extend_from_slice(&0u64.to_be_bytes());
        page.extend_from_slice(&1u32.to_be_bytes());
        page.extend_from_slice(&sequence.to_be_bytes());
        page.extend_from_slice(&[0, 0, 0, 0]);
        page.push(1);
        page.push(payload.len() as u8);
        page.extend_from_slice(payload);
        let mut view: Vec<u8> = page[0..22].to_vec();
        view.push(0);
        view.push(1);
        view.extend_from_slice(payload);
        let c = crc32(&view).to_be_bytes();
        page[22] = c[0];
        page[23] = c[1];
        page[24] = c[2];
        page[25] = c[3];
        page
    };
    let mut id: Vec<u8> = Vec::new();
    id.push(0x01);
    id.extend_from_slice(b"vorbis");
    id.extend_from_slice(&[0u8; 23]);
    let mut com: Vec<u8> = Vec::new();
    com.push(0x03);
    com.extend_from_slice(b"vorbis");
    com.extend_from_slice(&0u32.to_le_bytes());
    com.extend_from_slice(&1u32.to_le_bytes());
    let entry = format!("METADATA_BLOCK_PICTURE={}", encoded);
    com.extend_from_slice(&(entry.len() as u32).to_le_bytes());
    com.extend_from_slice(entry.as_bytes());
    let mut buf = build_page(0x02, 0, &id);
    buf.extend_from_slice(&build_page(0x04, 1, &com));
    let m = parse(&buf).unwrap();
    let cover = m.cover.unwrap();
    assert_eq!(cover.mime, "image/png");
    assert_eq!(cover.data, vec![42, 43]);
}
