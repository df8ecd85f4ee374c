use audiometa::crc32::crc32;
use audiometa::summary::parse;

fn push_block(buf: &mut Vec<u8>, id: u8, last: bool, payload: &[u8]) {
    let header = if last { id | 0x80 } else { id };
    buf.push(header);
    let len = payload.len() as u32;
    buf.push((len >> 16) as u8);
    buf.push((len >> 8) as u8);
    buf.push(len as u8);
    buf.extend_from_slice(payload);
}

fn comment_block(pairs: &[(&str, &str)]) -> Vec<u8> {
    let mut p: Vec<u8> = Vec::new();
    p.extend_from_slice(&0u32.to_le_bytes());
    p.extend_from_slice(&(pairs.len() as u32).to_le_bytes());
    for (k, v) in pairs {
        let s = format!("{}={}", k, v);
        p.extend_from_slice(&(s.len() as u32).to_le_bytes());
        p.extend_from_slice(s.as_bytes());
    }
    p
}

#[test]
fn flac_summary_takes_last_key_and_first_picture() {
    let mut buf: Vec<u8> = Vec::new();
    buf.extend_from_slice(b"fLaC");
    push_block(
        &mut buf,
        4,
        false,
        &comment_block(&[("TITLE", "First"), ("ARTIST", "Band")]),
    );
    // a later block overrides the earlier TITLE
    push_block(&mut buf, 4, false, &comment_block(&[("TITLE", "Second")]));
    let mut pic: Vec<u8> = Vec::new();
    pic.extend_from_slice(&3u32.to_be_bytes());
    pic.extend_from_slice(&9u32.to_be_bytes());
    pic.extend_from_slice(b"image/png");
    pic.extend_from_slice(&0u32.to_be_bytes());
    pic.extend_from_slice(&[0u8; 20]);
    pic.extend_from_slice(&[1, 2, 3]);
    push_block(&mut buf, 6, true, &pic);
    let m = parse(&buf).unwrap();
    assert_eq!(m.title.as_deref(), Some("Second"));
    assert_eq!(m.artist.as_deref(), Some("Band"));
    assert_eq!(m.album, None);
    let cover = m.cover.unwrap();
    assert_eq!(cover.mime, "image/png");
    assert_eq!(cover.data, vec![1, 2, 3]);
}

#[test]
fn id3_summary_reads_text_frames_and_picture() {
    let mut frames: Vec<u8> = Vec::new();
    let mut consumed = 0usize;
    let mut push_frame = |frames: &mut Vec<u8>, id: &[u8; 4], payload: &[u8]| -> usize {
        frames.extend_from_slice(id);
        frames.extend_from_slice(&((payload.len() + 1) as u32).to_be_bytes());
        frames.extend_from_slice(&[0, 0, 0]);
        frames.extend_from_slice(payload);
        10 + payload.len()
    };
    consumed += push_frame(&mut frames, b"TIT2", b"A Title\0");
    consumed += push_frame(&mut frames, b"TPE1", b"An Artist\0");
    consumed += push_frame(&mut frames, b"TALB", b"An Album\0");
    let mut apic: Vec<u8> = Vec::new();
    apic.extend_from_slice(b"image/jpeg\0");
    apic.push(3);
    apic.extend_from_slice(b"\0");
    apic.extend_from_slice(&[5, 6]);
    consumed += push_frame(&mut frames, b"APIC", &apic);
    let mut buf: Vec<u8> = Vec::new();
    buf.extend_from_slice(b"ID3");
    buf.extend_from_slice(&[0x03, 0x00, 0x00]);
    let fs = consumed as u32;
    buf.push(((fs >> 21) & 0x7F) as u8);
    buf.push(((fs >> 14) & 0x7F) as u8);
    buf.push(((fs >> 7) & 0x7F) as u8);
    buf.push((fs & 0x7F) as u8);
    buf.extend_from_slice(&frames);
    let m = parse(&buf).unwrap();
    assert_eq!(m.title.as_deref(), Some("A Title"));
    assert_eq!(m.artist.as_deref(), Some("An Artist"));
    assert_eq!(m.album.as_deref(), Some("An Album"));
    let cover = m.cover.unwrap();
    assert_eq!(cover.mime, "image/jpeg");
    assert_eq!(cover.data, vec![5, 6]);
}

#[test]
fn ogg_summary_reads_comment_fields() {
    let build_page = |flags: u8, sequence: u32, payload: &[u8]| -> Vec<u8> {
        let mut page: Vec<u8> = Vec::new();
        page.extend_from_slice(b"OggS");
        page.push(0);
        page.push(flags);
        page.extend_from_slice(&0u64.to_be_bytes());
        page.extend_from_slice(&1u32.to_be_bytes());
        page.extend_from_slice(&sequence.to_be_bytes());
        page.extend_from_slice(&[0, 0, 0, 0]);
        page.push(1);
        page.push(payload.len() as u8);
        page.extend_from_slice(payload);
        let mut view: Vec<u8> = page[0..22].to_vec();
        view.push(0);
        view.push(1);
        view.extend_from_slice(payload);
        let c = crc32(&view).to_be_bytes();
        page[22] = c[0];
        page[23] = c[1];
        page[24] = c[2];
        page[25] = c[3];
        page
    };
    let mut id: Vec<u8> = Vec::new();
    id.push(0x01);
    id.extend_from_slice(b"vorbis");
    id.extend_from_slice(&[0u8; 23]);
    let mut com: Vec<u8> = Vec::new();
    com.push(0x03);
    com.extend_from_slice(b"vorbis");
    com.extend_from_slice(&0u32.to_le_bytes());
    com.extend_from_slice(&2u32.to_le_bytes());
    com.extend_from_slice(&9u32.to_le_bytes());
    com.extend_from_slice(b"TITLE=Ogg");
    com.extend_from_slice(&10u32.to_le_bytes());
    com.extend_from_slice(b"ALBUM=Disc");
    let mut buf = build_page(0x02, 0, &id);
    buf.extend_from_slice(&build_page(0x04, 1, &com));
    let m = parse(&buf).unwrap();
    assert_eq!(m.title.as_deref(), Some("Ogg"));
    assert_eq!(m.artist, None);
    assert_eq!(m.album.as_deref(), Some("Disc"));
    assert!(m.cover.is_none());
}

#[test]
fn unsupported_format_yields_none() {
    assert!(parse(b"RIFFxxxxWAVE").is_none());
    assert!(parse(&[]).is_none());
}

#[test]
fn malformed_flac_yields_none_not_a_crash() {
    // the block walker reports a bounds violation; the summary maps it
    // to an absent result
    assert!(parse(&[0x66, 0x4C, 0x61, 0x43, 0x80, 0xFF, 0xFF, 0xFF]).is_none());
    assert!(parse(b"ID3").is_none());
}
