use audiometa::crc32::crc32;
use audiometa::ogg::{Ogg, OggParsedPage, Segment};
use audiometa::reader::ByteReader;
use audiometa::DecodeError;

/// Builds one single-segment OGG page with a correct checksum.
fn build_page(flags: u8, sequence: u32, payload: &[u8]) -> Vec<u8> {
    assert!(payload.len() <= 255);
    let mut page: Vec<u8> = Vec::new();
    page.extend_from_slice(b"OggS");
    page.push(0); // version
    page.push(flags);
    page.extend_from_slice(&7u64.to_be_bytes()); // granule position
    page.extend_from_slice(&0x11223344u32.to_be_bytes()); // serial number
    page.extend_from_slice(&sequence.to_be_bytes());
    page.extend_from_slice(&[0, 0, 0, 0]); // checksum, patched below
    page.push(1); // one lacing entry
    page.push(payload.len() as u8);
    page.extend_from_slice(payload);
    // recompute the checksum over header-before-checksum + one zero byte
    // + the segment-count byte + payload
    let mut view: Vec<u8> = page[0..22].to_vec();
    view.push(0);
    view.push(1);
    view.extend_from_slice(payload);
    let c = crc32(&view).to_be_bytes();
    page[22] = c[0];
    page[23] = c[1];
    page[24] = c[2];
    page[25] = c[3];
    page
}

fn vorbis_id_packet() -> Vec<u8> {
    let mut p: Vec<u8> = Vec::new();
    p.push(0x01);
    p.extend_from_slice(b"vorbis");
    p.extend_from_slice(&0u32.to_le_bytes()); // version
    p.push(2); // channels
    p.extend_from_slice(&44100u32.to_le_bytes());
    p.extend_from_slice(&(-1i32).to_le_bytes()); // maximum bitrate
    p.extend_from_slice(&128000i32.to_le_bytes()); // nominal bitrate
    p.extend_from_slice(&(-1i32).to_le_bytes()); // minimum bitrate
    p.push(0xB8); // block-size exponents 11 and 8
    p.push(0x01); // framing flag
    p
}

fn vorbis_comment_packet() -> Vec<u8> {
    let mut p: Vec<u8> = Vec::new();
    p.push(0x03);
    p.extend_from_slice(b"vorbis");
    p.extend_from_slice(&3u32.to_le_bytes());
    p.extend_from_slice(b"abc");
    p.extend_from_slice(&1u32.to_le_bytes());
    p.extend_from_slice(&9u32.to_le_bytes());
    p.extend_from_slice(b"TITLE=Fun");
    p
}

#[test]
fn vorbis_stream_decodes_identification_and_comments() {
    let mut buf = build_page(0x02, 0, &vorbis_id_packet());
    buf.extend_from_slice(&build_page(0x04, 1, &vorbis_comment_packet()));
    let o = Ogg::from_bytes(&buf).unwrap();
    let pages = o.pages();
    assert_eq!(pages.len(), 2);
    match &pages[0] {
        OggParsedPage::VorbisIdentification(v) => {
            assert_eq!(v.vorbis_version, 0);
            assert_eq!(v.audio_channels, 2);
            assert_eq!(v.audio_sample_rate, 44100);
            assert_eq!(v.bitrate_maximum, -1);
            assert_eq!(v.bitrate_nominal, 128000);
            assert_eq!(v.bitrate_minimum, -1);
            assert_eq!(v.blocksize_0, 11);
            assert_eq!(v.blocksize_1, 8);
            assert_eq!(v.framing_flag, 1);
        },
        _ => panic!("first page must be a Vorbis identification header"),
    }
    match &pages[1] {
        OggParsedPage::Comments(c) => {
            assert_eq!(c.vendor(), "abc");
            assert_eq!(c.comments()[0], ("TITLE".to_string(), "Fun".to_string()));
        },
        _ => panic!("second page must be the comment header"),
    }
}

#[test]
fn opus_stream_decodes_identification_and_tags() {
    let mut id: Vec<u8> = Vec::new();
    id.extend_from_slice(b"OpusHead");
    id.push(1); // version
    id.push(2); // output channels
    id.extend_from_slice(&312u16.to_le_bytes()); // pre-skip
    id.extend_from_slice(&48000u32.to_le_bytes());
    id.extend_from_slice(&0u16.to_le_bytes()); // output gain
    id.push(0); // mapping family
    let mut tags: Vec<u8> = Vec::new();
    tags.extend_from_slice(b"OpusTags");
    tags.extend_from_slice(&2u32.to_le_bytes());
    tags.extend_from_slice(b"op");
    tags.extend_from_slice(&1u32.to_le_bytes());
    tags.extend_from_slice(&11u32.to_le_bytes());
    tags.extend_from_slice(b"ARTIST=Band");
    let mut buf = build_page(0x02, 0, &id);
    buf.extend_from_slice(&build_page(0x04, 1, &tags));
    let o = Ogg::from_bytes(&buf).unwrap();
    let pages = o.pages();
    assert_eq!(pages.len(), 2);
    match &pages[0] {
        OggParsedPage::OpusIdentification(h) => {
            assert_eq!(h.version, 1);
            assert_eq!(h.channel_output_count, 2);
            assert_eq!(h.pre_skip, 312);
            assert_eq!(h.input_sample_rate, 48000);
            assert_eq!(h.output_gain, 0);
            assert_eq!(h.channel_mapping_family, 0);
            assert!(h.channel_mapping_table.is_none());
        },
        _ => panic!("first page must be an Opus identification header"),
    }
    match &pages[1] {
        OggParsedPage::Comments(c) => {
            assert_eq!(c.vendor(), "op");
            assert_eq!(c.comments()[0], ("ARTIST".to_string(), "Band".to_string()));
        },
        _ => panic!("second page must be the comment header"),
    }
}

#[test]
fn page_checksum_matches_when_intact_and_fails_when_corrupted() {
    // the anomaly is reported when the recomputed checksum differs from
    // the stored one, and only then
    let page = build_page(0x04, 0, b"payload");
    let mut r = ByteReader::new(&page);
    let seg = Segment::new(&mut r).unwrap();
    assert!(seg.checksum_valid);
    assert_eq!(seg.data, b"payload");
    assert_eq!(seg.size, 7);
    let mut corrupted = page.clone();
    let last = corrupted.len() - 1;
    corrupted[last] ^= 0xFF;
    let mut r2 = ByteReader::new(&corrupted);
    let seg2 = Segment::new(&mut r2).unwrap();
    assert!(!seg2.checksum_valid);
}

#[test]
fn payload_length_equals_lacing_table_sum() {
    // two lacing entries: 3 + 2 bytes of payload
    let mut page: Vec<u8> = Vec::new();
    page.extend_from_slice(b"OggS");
    page.push(0);
    page.push(0x04);
    page.extend_from_slice(&[0u8; 8]);
    page.extend_from_slice(&[0u8; 4]);
    page.extend_from_slice(&[0u8; 4]);
    page.extend_from_slice(&[0u8; 4]);
    page.push(2);
    page.push(3);
    page.push(2);
    page.extend_from_slice(&[10, 11, 12, 13, 14]);
    let mut r = ByteReader::new(&page);
    let seg = Segment::new(&mut r).unwrap();
    assert_eq!(seg.total_segments, 2);
    assert_eq!(seg.size, 5);
    assert_eq!(seg.data, vec![10, 11, 12, 13, 14]);
}

#[test]
fn reassembly_follows_continuation_and_stops_at_end_of_stream() {
    let mk = |flags: u8, data: &[u8]| Segment {
        version: 0,
        flags,
        granule_position: 0,
        serial_number: 0,
        sequence_number: 0,
        checksum: 0,
        total_segments: 1,
        size: data.len(),
        data: data.to_vec(),
        checksum_valid: true,
    };
    // the second page continues the first; the third starts a new packet
    let segs = vec![mk(0x02, b"ab"), mk(0x01, b"cd"), mk(0x00, b"ef")];
    assert_eq!(Ogg::load_fulldata(&segs, 0), b"abcd");
    // a fresh packet at index 2
    assert_eq!(Ogg::load_fulldata(&segs, 2), b"ef");
    // an end-of-stream page ends the packet even when followed by more
    let segs2 = vec![mk(0x04, b"xy"), mk(0x01, b"zz")];
    assert_eq!(Ogg::load_fulldata(&segs2, 0), b"xy");
    // an out-of-range start yields nothing
    assert_eq!(Ogg::load_fulldata(&segs2, 5), Vec::<u8>::new());
}

#[test]
fn missing_page_signature_mid_stream_is_structural_violation() {
    let mut buf = build_page(0x02, 0, &vorbis_id_packet());
    let bad_start = buf.len();
    buf.extend_from_slice(b"nOtOggSdata");
    assert!(matches!(
        Ogg::from_bytes(&buf),
        Err(DecodeError::StructuralViolation { offset }) if offset == bad_start
    ));
}

#[test]
fn unknown_first_packet_yields_no_pages() {
    let buf = build_page(0x04, 0, b"somethingelse");
    let o = Ogg::from_bytes(&buf).unwrap();
    assert_eq!(o.pages().len(), 0);
}
