//! OGG pages and packet reassembly: each page carries an `OggS`
//! signature, header flags, a CRC-32 checksum and a segment-length table
//! whose sum is the payload length. Logical packets may span pages
//! chained by the continuation flag; the first reconstructed packet is
//! sniffed for a Vorbis or Opus identification header and the second for
//! the comment header.

use vstd::prelude::*;
use vstd::slice::slice_to_vec;

use crate::base64::{b64_decode, spec_b64_decode};
use crate::crc32::{crc32, crc32_of};
use crate::reader::{be_val, le_val, ByteReader};
use crate::vorbis_comment::{spec_parse_vorbis_comment, VorbisComment, VorbisCommentView};
use crate::DecodeError;

verus! {

/// True when the buffer begins with the OGG signature `OggS`.
pub open spec fn ogg_signature(d: Seq<u8>) -> bool {
    d.len() >= 4 && d[0] == 0x4Fu8 && d[1] == 0x67u8 && d[2] == 0x67u8 && d[3] == 0x53u8
}

/// Sum of a segment-length (lacing) table.
pub open spec fn lace_sum(s: Seq<u8>) -> nat
    decreases s.len(),
{
    if s.len() == 0 {
        0
    } else {
        (s.first() as nat) + lace_sum(s.drop_first())
    }
}

/// Mathematical model of one OGG page.
pub ghost struct SegmentView {
    pub version: u8,
    pub flags: u8,
    pub granule_position: nat,
    pub serial_number: nat,
    pub sequence_number: nat,
    pub checksum: nat,
    pub total_segments: u8,
    pub data: Seq<u8>,
    pub checksum_valid: bool,
}

/// One page at `pos`: the `OggS` signature (its absence mid-stream is a
/// structural violation), version, flags, granule position, serial and
/// sequence numbers, the stored CRC-32, the segment count and lacing
/// table, then the payload whose length is the table's sum. The page's
/// checksum is recomputed over the header bytes before the checksum
/// field, one zero byte, the segment-count byte and the payload;
/// `checksum_valid` records whether it matches the stored value (a
/// mismatch is reported, never fatal).
pub open spec fn spec_parse_segment(d: Seq<u8>, pos: int) -> Result<
    (SegmentView, int),
    DecodeError,
> {
    if pos + 4 > d.len() {
        Err(DecodeError::BoundsViolation { offset: pos as usize })
    } else if !(d[pos] == 0x4Fu8 && d[pos + 1] == 0x67u8 && d[pos + 2] == 0x67u8 && d[pos + 3]
        == 0x53u8) {
        Err(DecodeError::StructuralViolation { offset: pos as usize })
    } else if pos + 5 > d.len() {
        Err(DecodeError::BoundsViolation { offset: (pos + 4) as usize })
    } else if pos + 6 > d.len() {
        Err(DecodeError::BoundsViolation { offset: (pos + 5) as usize })
    } else if pos + 14 > d.len() {
        Err(DecodeError::BoundsViolation { offset: (pos + 6) as usize })
    } else if pos + 18 > d.len() {
        Err(DecodeError::BoundsViolation { offset: (pos + 14) as usize })
    } else if pos + 22 > d.len() {
        Err(DecodeError::BoundsViolation { offset: (pos + 18) as usize })
    } else if pos + 26 > d.len() {
        Err(DecodeError::BoundsViolation { offset: (pos + 22) as usize })
    } else if pos + 27 > d.len() {
        Err(DecodeError::BoundsViolation { offset: (pos + 26) as usize })
    } else {
        let ts = d[pos + 26];
        if pos + 27 + ts > d.len() {
            Err(DecodeError::BoundsViolation { offset: (pos + 27) as usize })
        } else {
            let table = d.subrange(pos + 27, pos + 27 + ts);
            let sum = lace_sum(table);
            let ps = pos + 27 + ts;
            if ps + sum > d.len() {
                Err(DecodeError::BoundsViolation { offset: ps as usize })
            } else {
                let data = d.subrange(ps, ps + sum);
                let stored = be_val(d.subrange(pos + 22, pos + 26));
                let view = d.subrange(pos, pos + 22) + seq![0u8] + seq![ts] + data;
                Ok(
                    (
                        SegmentView {
                            version: d[pos + 4],
                            flags: d[pos + 5],
                            granule_position: be_val(d.subrange(pos + 6, pos + 14)),
                            serial_number: be_val(d.subrange(pos + 14, pos + 18)),
                            sequence_number: be_val(d.subrange(pos + 18, pos + 22)),
                            checksum: stored,
                            total_segments: ts,
                            data,
                            checksum_valid: crc32_of(view) == stored,
                        },
                        ps + sum,
                    ),
                )
            }
        }
    }
}

/// The page sequence from `pos`: pages are collected until two pages
/// with a plain (zero) header-flag value have been seen, the end-of-
/// stream flag (0x04) appears, or the buffer ends.
pub open spec fn spec_walk_pages(d: Seq<u8>, pos: int, full_pages: int) -> Result<
    (Seq<SegmentView>, int),
    DecodeError,
>
    decreases d.len() - pos,
    when 0 <= pos <= d.len()
{
    match spec_parse_segment(d, pos) {
        Err(e) => Err(e),
        Ok((sv, p2)) => {
            let fp = full_pages + if sv.flags == 0 {
                1int
            } else {
                0int
            };
            if fp >= 2 || p2 == d.len() || sv.flags == 0x04 {
                Ok((seq![sv], p2))
            } else {
                match spec_walk_pages(d, p2, fp) {
                    Err(e) => Err(e),
                    Ok((rest, pe)) => Ok((seq![sv] + rest, pe)),
                }
            }
        },
    }
}

/// The bytes of the logical packet starting at page index `cur` of a
/// chain that began at `start`: the start page, then consecutive pages
/// whose flags mark a continuation (0x01), stopping after a page whose
/// flags mark end-of-stream (0x04) or at the end of the page list.
pub open spec fn spec_reassemble_from(segs: Seq<SegmentView>, cur: int, start: int) -> Seq<u8>
    decreases segs.len() - cur,
    when cur >= 0
{
    if cur < 0 || cur >= segs.len() {
        seq![]
    } else if cur > start && segs[cur].flags != 0x01 {
        seq![]
    } else if segs[cur].flags == 0x04 {
        segs[cur].data
    } else {
        segs[cur].data + spec_reassemble_from(segs, cur + 1, start)
    }
}

/// The logical packet whose first page stands at index `start`.
pub open spec fn spec_reassemble(segs: Seq<SegmentView>, start: int) -> Seq<u8> {
    spec_reassemble_from(segs, start, start)
}

/// True when the packet begins with the 8-byte `OpusHead` identification
/// magic.
pub open spec fn is_opus_head(p: Seq<u8>) -> bool {
    p.len() >= 8 && p[0] == 0x4Fu8 && p[1] == 0x70u8 && p[2] == 0x75u8 && p[3] == 0x73u8 && p[4]
        == 0x48u8 && p[5] == 0x65u8 && p[6] == 0x61u8 && p[7] == 0x64u8
}

/// True when the packet begins with the 8-byte `OpusTags` comment magic.
pub open spec fn is_opus_tags(p: Seq<u8>) -> bool {
    p.len() >= 8 && p[0] == 0x4Fu8 && p[1] == 0x70u8 && p[2] == 0x75u8 && p[3] == 0x73u8 && p[4]
        == 0x54u8 && p[5] == 0x61u8 && p[6] == 0x67u8 && p[7] == 0x73u8
}

/// True when the packet begins with the Vorbis identification magic:
/// 0x01 then `vorbis`.
pub open spec fn is_vorbis_id(p: Seq<u8>) -> bool {
    p.len() >= 7 && p[0] == 0x01u8 && p[1] == 0x76u8 && p[2] == 0x6Fu8 && p[3] == 0x72u8 && p[4]
        == 0x62u8 && p[5] == 0x69u8 && p[6] == 0x73u8
}

/// True when the packet begins with the Vorbis comment magic: 0x03 then
/// `vorbis`.
pub open spec fn is_vorbis_comment_magic(p: Seq<u8>) -> bool {
    p.len() >= 7 && p[0] == 0x03u8 && p[1] == 0x76u8 && p[2] == 0x6Fu8 && p[3] == 0x72u8 && p[4]
        == 0x62u8 && p[5] == 0x69u8 && p[6] == 0x73u8
}

/// Mathematical model of a Vorbis identification header.
pub ghost struct VorbisIdentificationView {
    pub vorbis_version: nat,
    pub audio_channels: u8,
    pub audio_sample_rate: nat,
    pub bitrate_maximum: int,
    pub bitrate_nominal: int,
    pub bitrate_minimum: int,
    pub blocksize_0: u8,
    pub blocksize_1: u8,
    pub framing_flag: u8,
}

/// Mathematical model of an Opus identification header.
pub ghost struct OpusIdentificationView {
    pub version: u8,
    pub channel_output_count: u8,
    pub pre_skip: nat,
    pub input_sample_rate: nat,
    pub output_gain: nat,
    pub channel_mapping_family: u8,
    pub channel_mapping_table: Option<Seq<u8>>,
}

/// The value of four little-endian bytes as a two's-complement signed
/// 32-bit integer.
pub open spec fn le_i32(b: Seq<u8>) -> int {
    if le_val(b) < 0x80000000 {
        le_val(b) as int
    } else {
        le_val(b) as int - 0x100000000
    }
}

/// The Vorbis identification fields after the 7-byte magic: version,
/// channel count, sample rate and the three bitrate fields are
/// little-endian; the two block-size exponents are the high and low
/// nibble of one byte; the framing flag is the low bit of the last byte.
pub open spec fn spec_decode_vorbis_id(p: Seq<u8>) -> Result<
    VorbisIdentificationView,
    DecodeError,
> {
    if 11 > p.len() {
        Err(DecodeError::BoundsViolation { offset: 7 })
    } else if 12 > p.len() {
        Err(DecodeError::BoundsViolation { offset: 11 })
    } else if 16 > p.len() {
        Err(DecodeError::BoundsViolation { offset: 12 })
    } else if 20 > p.len() {
        Err(DecodeError::BoundsViolation { offset: 16 })
    } else if 24 > p.len() {
        Err(DecodeError::BoundsViolation { offset: 20 })
    } else if 28 > p.len() {
        Err(DecodeError::BoundsViolation { offset: 24 })
    } else if 29 > p.len() {
        Err(DecodeError::BoundsViolation { offset: 28 })
    } else if 30 > p.len() {
        Err(DecodeError::BoundsViolation { offset: 29 })
    } else {
        Ok(
            VorbisIdentificationView {
                vorbis_version: le_val(p.subrange(7, 11)),
                audio_channels: p[11],
                audio_sample_rate: le_val(p.subrange(12, 16)),
                bitrate_maximum: le_i32(p.subrange(16, 20)),
                bitrate_nominal: le_i32(p.subrange(20, 24)),
                bitrate_minimum: le_i32(p.subrange(24, 28)),
                blocksize_0: p[28] >> 4,
                blocksize_1: p[28] & 0x0F,
                framing_flag: p[29] & 0x01,
            },
        )
    }
}

/// The Opus identification fields after the 8-byte magic: version,
/// channel count, then little-endian pre-skip, input sample rate and
/// output gain, the mapping family, and — when the family is non-zero —
/// a mapping table of as many bytes as the family value.
pub open spec fn spec_decode_opus_id(p: Seq<u8>) -> Result<OpusIdentificationView, DecodeError> {
    if 9 > p.len() {
        Err(DecodeError::BoundsViolation { offset: 8 })
    } else if 10 > p.len() {
        Err(DecodeError::BoundsViolation { offset: 9 })
    } else if 12 > p.len() {
        Err(DecodeError::BoundsViolation { offset: 10 })
    } else if 16 > p.len() {
        Err(DecodeError::BoundsViolation { offset: 12 })
    } else if 18 > p.len() {
        Err(DecodeError::BoundsViolation { offset: 16 })
    } else if 19 > p.len() {
        Err(DecodeError::BoundsViolation { offset: 18 })
    } else {
        let family = p[18];
        if family == 0 {
            Ok(
                OpusIdentificationView {
                    version: p[8],
                    channel_output_count: p[9],
                    pre_skip: le_val(p.subrange(10, 12)),
                    input_sample_rate: le_val(p.subrange(12, 16)),
                    output_gain: le_val(p.subrange(16, 18)),
                    channel_mapping_family: family,
                    channel_mapping_table: None,
                },
            )
        } else if 19 + family > p.len() {
            Err(DecodeError::BoundsViolation { offset: 19 })
        } else {
            Ok(
                OpusIdentificationView {
                    version: p[8],
                    channel_output_count: p[9],
                    pre_skip: le_val(p.subrange(10, 12)),
                    input_sample_rate: le_val(p.subrange(12, 16)),
                    output_gain: le_val(p.subrange(16, 18)),
                    channel_mapping_family: family,
                    channel_mapping_table: Some(p.subrange(19, 19 + family)),
                },
            )
        }
    }
}

/// Mathematical model of one classified OGG page of interest.
pub ghost enum OggPageView {
    VorbisIdentification(VorbisIdentificationView),
    OpusIdentification(OpusIdentificationView),
    Comments(VorbisCommentView),
}

/// The comment page's contribution: when the second packet carries an
/// `OpusTags` or 0x03+`vorbis` magic, the Vorbis comments after the
/// magic; otherwise only the identification page.
pub open spec fn spec_after_id(segs: Seq<SegmentView>, first: OggPageView) -> Result<
    Seq<OggPageView>,
    DecodeError,
> {
    let p2 = spec_reassemble(segs, 1);
    if is_opus_tags(p2) {
        match spec_parse_vorbis_comment(p2, 8) {
            Err(e) => Err(e),
            Ok((v, _)) => Ok(seq![first, OggPageView::Comments(v)]),
        }
    } else if is_vorbis_comment_magic(p2) {
        match spec_parse_vorbis_comment(p2, 7) {
            Err(e) => Err(e),
            Ok((v, _)) => Ok(seq![first, OggPageView::Comments(v)]),
        }
    } else {
        Ok(seq![first])
    }
}

/// A whole OGG buffer: the page walk, then the first reconstructed
/// packet sniffed for an Opus or Vorbis identification header and — when
/// one is found — the second packet sniffed for the comment header. A
/// buffer whose first packet matches neither yields no pages.
pub open spec fn spec_parse_ogg(d: Seq<u8>) -> Result<Seq<OggPageView>, DecodeError> {
    if !ogg_signature(d) {
        Err(DecodeError::SignatureMismatch { offset: 0 })
    } else {
        match spec_walk_pages(d, 0, 0) {
            Err(e) => Err(e),
            Ok((segs, _)) => {
                let p1 = spec_reassemble(segs, 0);
                if is_opus_head(p1) {
                    match spec_decode_opus_id(p1) {
                        Err(e) => Err(e),
                        Ok(oi) => spec_after_id(segs, OggPageView::OpusIdentification(oi)),
                    }
                } else if is_vorbis_id(p1) {
                    match spec_decode_vorbis_id(p1) {
                        Err(e) => Err(e),
                        Ok(vi) => spec_after_id(segs, OggPageView::VorbisIdentification(vi)),
                    }
                } else {
                    Ok(seq![])
                }
            },
        }
    }
}

/// One raw OGG page.
pub struct Segment {
    pub version: u8,
    pub flags: u8,
    pub granule_position: u64,
    pub serial_number: u32,
    pub sequence_number: u32,
    pub checksum: u32,
    pub total_segments: u8,
    pub size: usize,
    pub data: Vec<u8>,
    pub checksum_valid: bool,
}

impl View for Segment {
    type V = SegmentView;

    open spec fn view(&self) -> SegmentView {
        SegmentView {
            version: self.version,
            flags: self.flags,
            granule_position: self.granule_position as nat,
            serial_number: self.serial_number as nat,
            sequence_number: self.sequence_number as nat,
            checksum: self.checksum as nat,
            total_segments: self.total_segments,
            data: self.data@,
            checksum_valid: self.checksum_valid,
        }
    }
}

impl Segment {
    /// Reads one page at the cursor's position and verifies its
    /// checksum; a checksum mismatch is recorded, not fatal.
    pub fn new(reader: &mut ByteReader) -> (r: Result<Segment, DecodeError>)
        requires
            old(reader).wf(),
        ensures
            final(reader).wf(),
            final(reader).data() == old(reader).data(),
            match spec_parse_segment(old(reader).data(), old(reader).pos()) {
                Ok((sv, p2)) => r matches Ok(s) && s@ == sv && s.size == sv.data.len()
                    && final(reader).pos() == p2,
                Err(e) => r == Err::<Segment, DecodeError>(e),
            },
    {
        let ghost d = old(reader).data();
        let ghost pos = old(reader).pos();
        let page_start = reader.offset();
        let sig = match reader.peek(4) {
            Ok(s) => s,
            Err(e) => { return Err(e) },
        };
        if !(sig[0] == 0x4F && sig[1] == 0x67 && sig[2] == 0x67 && sig[3] == 0x53) {
            return Err(DecodeError::StructuralViolation { offset: page_start });
        }
        match reader.skip(4) {
            Ok(_) => (),
            Err(e) => { return Err(e) },
        }
        let version = match reader.read_u8() {
            Ok(v) => v,
            Err(e) => { return Err(e) },
        };
        let flags = match reader.read_u8() {
            Ok(v) => v,
            Err(e) => { return Err(e) },
        };
        let granule_position = match reader.read_u64(true) {
            Ok(v) => v,
            Err(e) => { return Err(e) },
        };
        let serial_number = match reader.read_u32(true) {
            Ok(v) => v,
            Err(e) => { return Err(e) },
        };
        let sequence_number = match reader.read_u32(true) {
            Ok(v) => v,
            Err(e) => { return Err(e) },
        };
        let checksum_pos = reader.offset();
        let checksum = match reader.read_u32(true) {
            Ok(v) => v,
            Err(e) => { return Err(e) },
        };
        let total_segments = match reader.read_u8() {
            Ok(v) => v,
            Err(e) => { return Err(e) },
        };
        let table = match reader.read(total_segments as usize) {
            Ok(t) => t,
            Err(e) => { return Err(e) },
        };
        let mut size: usize = 0;
        let mut j: usize = 0;
        proof {
            assert(table@.skip(0) =~= table@);
        }
        while j < table.len()
            invariant
                0 <= j <= table@.len(),
                table@.len() <= 255,
                size <= 255 * j,
                size + lace_sum(table@.skip(j as int)) == lace_sum(table@),
            decreases table@.len() - j,
        {
            proof {
                assert(table@.skip(j as int).drop_first() =~= table@.skip(j + 1));
            }
            size = size + (table[j] as usize);
            j = j + 1;
        }
        proof {
            assert(table@.skip(table@.len() as int) =~= Seq::<u8>::empty());
            assert(size == lace_sum(table@));
        }
        let data = match reader.read_vec(size) {
            Ok(v) => v,
            Err(e) => { return Err(e) },
        };
        let header = match reader.peek_range(page_start, checksum_pos) {
            Ok(h) => h,
            Err(e) => {
                proof {
                    assert(false);
                }
                return Err(e);
            },
        };
        let mut view: Vec<u8> = slice_to_vec(header);
        view.push(0);
        view.push(total_segments);
        view.extend_from_slice(data.as_slice());
        let computed = crc32(view.as_slice());
        let checksum_valid = computed == checksum;
        proof {
            let ts = total_segments;
            let sum = lace_sum(d.subrange(pos + 27, pos + 27 + ts));
            assert(data@ == d.subrange(pos + 27 + ts, pos + 27 + ts + sum));
            assert(view@ =~= d.subrange(pos, pos + 22) + seq![0u8] + seq![ts] + data@);
        }
        Ok(
            Segment {
                version,
                flags,
                granule_position,
                serial_number,
                sequence_number,
                checksum,
                total_segments,
                size,
                data,
                checksum_valid,
            },
        )
    }
}

/// One classified OGG page of interest.
pub enum OggParsedPage {
    VorbisIdentification(VorbisIdentification),
    OpusIdentification(OpusIdentification),
    Comments(VorbisComment),
}

impl View for OggParsedPage {
    type V = OggPageView;

    open spec fn view(&self) -> OggPageView {
        match self {
            OggParsedPage::VorbisIdentification(v) => OggPageView::VorbisIdentification(v@),
            OggParsedPage::OpusIdentification(o) => OggPageView::OpusIdentification(o@),
            OggParsedPage::Comments(c) => OggPageView::Comments(c@),
        }
    }
}

/// A decoded Vorbis identification header.
pub struct VorbisIdentification {
    pub vorbis_version: u32,
    pub audio_channels: u8,
    pub audio_sample_rate: u32,
    pub bitrate_maximum: i32,
    pub bitrate_nominal: i32,
    pub bitrate_minimum: i32,
    pub blocksize_0: u8,
    pub blocksize_1: u8,
    pub framing_flag: u8,
}

impl View for VorbisIdentification {
    type V = VorbisIdentificationView;

    open spec fn view(&self) -> VorbisIdentificationView {
        VorbisIdentificationView {
            vorbis_version: self.vorbis_version as nat,
            audio_channels: self.audio_channels,
            audio_sample_rate: self.audio_sample_rate as nat,
            bitrate_maximum: self.bitrate_maximum as int,
            bitrate_nominal: self.bitrate_nominal as int,
            bitrate_minimum: self.bitrate_minimum as int,
            blocksize_0: self.blocksize_0,
            blocksize_1: self.blocksize_1,
            framing_flag: self.framing_flag,
        }
    }
}

impl VorbisIdentification {
    /// Decodes a Vorbis identification packet.
    pub fn new(bytes: &[u8]) -> (r: Result<VorbisIdentification, DecodeError>)
        ensures
            match spec_decode_vorbis_id(bytes@) {
                Ok(v) => r matches Ok(vi) && vi@ == v,
                Err(e) => r == Err::<VorbisIdentification, DecodeError>(e),
            },
    {
        let mut reader = ByteReader::new(bytes);
        match reader.skip(7) {
            Ok(_) => (),
            Err(_) => { return Err(DecodeError::BoundsViolation { offset: 7 }) },
        }
        let vorbis_version = match reader.read_u32(false) {
            Ok(v) => v,
            Err(e) => { return Err(e) },
        };
        let audio_channels = match reader.read_u8() {
            Ok(v) => v,
            Err(e) => { return Err(e) },
        };
        let audio_sample_rate = match reader.read_u32(false) {
            Ok(v) => v,
            Err(e) => { return Err(e) },
        };
        let bitrate_maximum = match reader.read_i32(false) {
            Ok(v) => v,
            Err(e) => { return Err(e) },
        };
        let bitrate_nominal = match reader.read_i32(false) {
            Ok(v) => v,
            Err(e) => { return Err(e) },
        };
        let bitrate_minimum = match reader.read_i32(false) {
            Ok(v) => v,
            Err(e) => { return Err(e) },
        };
        let blocksize = match reader.read_u8() {
            Ok(v) => v,
            Err(e) => { return Err(e) },
        };
        let framing = match reader.read_u8() {
            Ok(v) => v,
            Err(e) => { return Err(e) },
        };
        Ok(
            VorbisIdentification {
                vorbis_version,
                audio_channels,
                audio_sample_rate,
                bitrate_maximum,
                bitrate_nominal,
                bitrate_minimum,
                blocksize_0: blocksize >> 4,
                blocksize_1: blocksize & 0x0F,
                framing_flag: framing & 0x01,
            },
        )
    }

    /// True when the packet begins with the Vorbis identification magic.
    pub fn is_vorbis_format(bytes: &[u8]) -> (r: bool)
        ensures
            r == is_vorbis_id(bytes@),
    {
        bytes.len() >= 7 && bytes[0] == 0x01 && bytes[1] == 0x76 && bytes[2] == 0x6F && bytes[3]
            == 0x72 && bytes[4] == 0x62 && bytes[5] == 0x69 && bytes[6] == 0x73
    }
}

/// A decoded Opus identification header.
pub struct OpusIdentification {
    pub version: u8,
    pub channel_output_count: u8,
    pub pre_skip: u16,
    pub input_sample_rate: u32,
    pub output_gain: u16,
    pub channel_mapping_family: u8,
    pub channel_mapping_table: Option<Vec<u8>>,
}

impl View for OpusIdentification {
    type V = OpusIdentificationView;

    open spec fn view(&self) -> OpusIdentificationView {
        OpusIdentificationView {
            version: self.version,
            channel_output_count: self.channel_output_count,
            pre_skip: self.pre_skip as nat,
            input_sample_rate: self.input_sample_rate as nat,
            output_gain: self.output_gain as nat,
            channel_mapping_family: self.channel_mapping_family,
            channel_mapping_table: match &self.channel_mapping_table {
                Some(t) => Some(t@),
                None => None,
            },
        }
    }
}

impl OpusIdentification {
    /// Decodes an Opus identification packet.
    pub fn new(bytes: &[u8]) -> (r: Result<OpusIdentification, DecodeError>)
        ensures
            match spec_decode_opus_id(bytes@) {
                Ok(v) => r matches Ok(oi) && oi@ == v,
                Err(e) => r == Err::<OpusIdentification, DecodeError>(e),
            },
    {
        let mut reader = ByteReader::new(bytes);
        match reader.skip(8) {
            Ok(_) => (),
            Err(_) => { return Err(DecodeError::BoundsViolation { offset: 8 }) },
        }
        let version = match reader.read_u8() {
            Ok(v) => v,
            Err(e) => { return Err(e) },
        };
        let channel_output_count = match reader.read_u8() {
            Ok(v) => v,
            Err(e) => { return Err(e) },
        };
        let pre_skip = match reader.read_u16(false) {
            Ok(v) => v,
            Err(e) => { return Err(e) },
        };
        let input_sample_rate = match reader.read_u32(false) {
            Ok(v) => v,
            Err(e) => { return Err(e) },
        };
        let output_gain = match reader.read_u16(false) {
            Ok(v) => v,
            Err(e) => { return Err(e) },
        };
        let channel_mapping_family = match reader.read_u8() {
            Ok(v) => v,
            Err(e) => { return Err(e) },
        };
        let channel_mapping_table = if channel_mapping_family == 0 {
            None
        } else {
            match reader.read_vec(channel_mapping_family as usize) {
                Ok(t) => Some(t),
                Err(e) => { return Err(e) },
            }
        };
        Ok(
            OpusIdentification {
                version,
                channel_output_count,
                pre_skip,
                input_sample_rate,
                output_gain,
                channel_mapping_family,
                channel_mapping_table,
            },
        )
    }

    /// True when the packet begins with the `OpusHead` identification
    /// magic.
    pub fn is_opus_format(bytes: &[u8]) -> (r: bool)
        ensures
            r == is_opus_head(bytes@),
    {
        bytes.len() >= 8 && bytes[0] == 0x4F && bytes[1] == 0x70 && bytes[2] == 0x75 && bytes[3]
            == 0x73 && bytes[4] == 0x48 && bytes[5] == 0x65 && bytes[6] == 0x61 && bytes[7] == 0x64
    }
}

/// A comment-header packet decoded through the shared Vorbis comment
/// decoder.
pub struct Comments {
    inner: VorbisComment,
}

impl View for Comments {
    type V = VorbisCommentView;

    closed spec fn view(&self) -> VorbisCommentView {
        self.inner@
    }
}

impl Comments {
    /// Decodes a comment-header packet when it carries the `OpusTags` or
    /// 0x03+`vorbis` magic; a packet with neither magic is no comment
    /// header (`None`), not an error.
    pub fn new(bytes: &[u8]) -> (r: Result<Option<Comments>, DecodeError>)
        ensures
            ({
                if is_opus_tags(bytes@) {
                    match spec_parse_vorbis_comment(bytes@, 8) {
                        Ok((v, _)) => r matches Ok(c) && c matches Some(cc) && cc@ == v,
                        Err(e) => r == Err::<Option<Comments>, DecodeError>(e),
                    }
                } else if is_vorbis_comment_magic(bytes@) {
                    match spec_parse_vorbis_comment(bytes@, 7) {
                        Ok((v, _)) => r matches Ok(c) && c matches Some(cc) && cc@ == v,
                        Err(e) => r == Err::<Option<Comments>, DecodeError>(e),
                    }
                } else {
                    r == Ok::<Option<Comments>, DecodeError>(None)
                }
            }),
    {
        if Comments::is_opus_format(bytes) {
            let mut reader = ByteReader::new(bytes);
            match reader.skip(8) {
                Ok(_) => (),
                Err(_) => {
                    proof {
                        assert(false);
                    }
                    return Ok(None);
                },
            }
            match VorbisComment::with_byte_reader(&mut reader) {
                Ok(inner) => Ok(Some(Comments { inner })),
                Err(e) => Err(e),
            }
        } else if Comments::is_vorbis_format(bytes) {
            let mut reader = ByteReader::new(bytes);
            match reader.skip(7) {
                Ok(_) => (),
                Err(_) => {
                    proof {
                        assert(false);
                    }
                    return Ok(None);
                },
            }
            match VorbisComment::with_byte_reader(&mut reader) {
                Ok(inner) => Ok(Some(Comments { inner })),
                Err(e) => Err(e),
            }
        } else {
            Ok(None)
        }
    }

    /// True when the packet begins with the `OpusTags` comment magic.
    pub fn is_opus_format(bytes: &[u8]) -> (r: bool)
        ensures
            r == is_opus_tags(bytes@),
    {
        bytes.len() >= 8 && bytes[0] == 0x4F && bytes[1] == 0x70 && bytes[2] == 0x75 && bytes[3]
            == 0x73 && bytes[4] == 0x54 && bytes[5] == 0x61 && bytes[6] == 0x67 && bytes[7] == 0x73
    }

    /// True when the packet begins with the Vorbis comment magic.
    pub fn is_vorbis_format(bytes: &[u8]) -> (r: bool)
        ensures
            r == is_vorbis_comment_magic(bytes@),
    {
        bytes.len() >= 7 && bytes[0] == 0x03 && bytes[1] == 0x76 && bytes[2] == 0x6F && bytes[3]
            == 0x72 && bytes[4] == 0x62 && bytes[5] == 0x69 && bytes[6] == 0x73
    }
}

/// A decoded OGG stream: the identification page and — when present —
/// the comment page.
pub struct Ogg {
    pages: Vec<OggParsedPage>,
}

impl View for Ogg {
    type V = Seq<OggPageView>;

    closed spec fn view(&self) -> Seq<OggPageView> {
        self.pages@.map_values(|p: OggParsedPage| p@)
    }
}

/// Joins already-collected pages with the outcome of walking the rest.
pub open spec fn pages_join(
    prefix: Seq<SegmentView>,
    rest: Result<(Seq<SegmentView>, int), DecodeError>,
) -> Result<(Seq<SegmentView>, int), DecodeError> {
    match rest {
        Ok((s, p)) => Ok((prefix + s, p)),
        Err(e) => Err(e),
    }
}

impl Ogg {
    /// True when the buffer begins with the OGG signature.
    pub fn is_format(bytes: &[u8]) -> (r: bool)
        ensures
            r == ogg_signature(bytes@),
    {
        bytes.len() >= 4 && bytes[0] == 0x4F && bytes[1] == 0x67 && bytes[2] == 0x67 && bytes[3]
            == 0x53
    }

    /// Reassembles the logical packet whose first page is at index
    /// `start`: the start page's payload, then the payloads of the pages
    /// chained to it by the continuation flag, stopping at an
    /// end-of-stream page.
    #[verifier::loop_isolation(false)]
    pub fn load_fulldata(segments: &[Segment], start: usize) -> (r: Vec<u8>)
        ensures
            r@ == spec_reassemble(segments@.map_values(|s: Segment| s@), start as int),
    {
        let ghost views = segments@.map_values(|s: Segment| s@);
        let mut buf: Vec<u8> = Vec::new();
        let mut cur: usize = start;
        let mut done = false;
        proof {
            vstd::slice::axiom_spec_len(segments);
        }
        while !done
            invariant
                start <= cur,
                cur <= views.len() || cur == start,
                !done ==> spec_reassemble(views, start as int) == buf@ + spec_reassemble_from(
                    views,
                    cur as int,
                    start as int,
                ),
                done ==> spec_reassemble(views, start as int) == buf@,
            decreases (if cur < views.len() {
                views.len() - cur
            } else {
                0int
            }) + (if done {
                0int
            } else {
                1int
            }),
        {
            if cur >= segments.len() {
                proof {
                    assert(spec_reassemble_from(views, cur as int, start as int) =~= Seq::<
                        u8,
                    >::empty());
                    assert(buf@ + Seq::<u8>::empty() =~= buf@);
                }
                done = true;
            } else {
                let segment = &segments[cur];
                proof {
                    assert(views[cur as int] == segment@);
                }
                if cur > start && segment.flags != 0x01 {
                    proof {
                        assert(spec_reassemble_from(views, cur as int, start as int) =~= Seq::<
                            u8,
                        >::empty());
                        assert(buf@ + Seq::<u8>::empty() =~= buf@);
                    }
                    done = true;
                } else {
                    let ghost buf0 = buf@;
                    buf.extend_from_slice(segment.data.as_slice());
                    if segment.flags == 0x04 {
                        done = true;
                        proof {
                            assert(spec_reassemble_from(views, cur as int, start as int)
                                == segment@.data);
                        }
                    } else {
                        cur = cur + 1;
                        proof {
                            assert(buf0 + (segment@.data + spec_reassemble_from(
                                views,
                                cur as int,
                                start as int,
                            )) =~= buf@ + spec_reassemble_from(views, cur as int, start as int));
                        }
                    }
                }
            }
        }
        buf
    }

    /// Decodes the identification and comment pages of an OGG buffer.
    #[verifier::loop_isolation(false)]
    pub fn from_bytes(bytes: &[u8]) -> (r: Result<Ogg, DecodeError>)
        ensures
            match spec_parse_ogg(bytes@) {
                Ok(s) => r matches Ok(o) && o@ == s,
                Err(e) => r == Err::<Ogg, DecodeError>(e),
            },
    {
        if !Ogg::is_format(bytes) {
            return Err(DecodeError::SignatureMismatch { offset: 0 });
        }
        let ghost d = bytes@;
        let mut reader = ByteReader::new(bytes);
        let ghost target = spec_walk_pages(d, 0, 0);
        let mut segments: Vec<Segment> = Vec::new();
        let mut full_page: u32 = 0;
        let mut done = false;
        proof {
            if target is Ok {
                assert(Seq::<SegmentView>::empty() + target->Ok_0.0 =~= target->Ok_0.0);
            }
        }
        while !done
            invariant
                reader.wf(),
                reader.data() == d,
                full_page <= 2,
                !done ==> full_page <= 1,
                !done ==> target == pages_join(
                    segments@.map_values(|s: Segment| s@),
                    spec_walk_pages(d, reader.pos(), full_page as int),
                ),
                done ==> (target matches Ok(t) && t.0 == segments@.map_values(
                    |s: Segment| s@,
                )),
            decreases d.len() - reader.pos() + (if done {
                0int
            } else {
                1int
            }),
        {
            let ghost p_cur = reader.pos();
            let ghost built = segments@.map_values(|s: Segment| s@);
            let segment = match Segment::new(&mut reader) {
                Ok(s) => s,
                Err(e) => { return Err(e) },
            };
            let ghost sv = segment@;
            let ghost p2 = reader.pos();
            let flags = segment.flags;
            if flags == 0 {
                full_page = full_page + 1;
            }
            segments.push(segment);
            let at_end = reader.is_end();
            if full_page >= 2 || at_end || flags == 0x04 {
                done = true;
            }
            proof {
                assert(segments@.map_values(|s: Segment| s@) =~= built.push(sv));
                let fp_new = full_page as int;
                if fp_new >= 2 || p2 == d.len() || sv.flags == 0x04 {
                    assert(built + seq![sv] =~= built.push(sv));
                } else {
                    let rest = spec_walk_pages(d, p2, fp_new);
                    if rest is Ok {
                        assert(built + (seq![sv] + rest->Ok_0.0) =~= built.push(sv)
                            + rest->Ok_0.0);
                    }
                }
            }
        }
        let packet1 = Ogg::load_fulldata(segments.as_slice(), 0);
        let mut pages: Vec<OggParsedPage> = Vec::new();
        if OpusIdentification::is_opus_format(packet1.as_slice()) {
            match OpusIdentification::new(packet1.as_slice()) {
                Ok(oi) => pages.push(OggParsedPage::OpusIdentification(oi)),
                Err(e) => { return Err(e) },
            }
        } else if VorbisIdentification::is_vorbis_format(packet1.as_slice()) {
            match VorbisIdentification::new(packet1.as_slice()) {
                Ok(vi) => pages.push(OggParsedPage::VorbisIdentification(vi)),
                Err(e) => { return Err(e) },
            }
        } else {
            proof {
                assert(pages@.map_values(|p: OggParsedPage| p@) =~= Seq::<OggPageView>::empty());
            }
            return Ok(Ogg { pages });
        }
        let packet2 = Ogg::load_fulldata(segments.as_slice(), 1);
        match Comments::new(packet2.as_slice()) {
            Ok(Some(c)) => {
                pages.push(OggParsedPage::Comments(c.inner));
            },
            Ok(None) => (),
            Err(e) => { return Err(e) },
        }
        proof {
            let segs = segments@.map_values(|s: Segment| s@);
            let p1 = spec_reassemble(segs, 0);
            let first = pages@.map_values(|p: OggParsedPage| p@)[0];
            let p2s = spec_reassemble(segs, 1);
            if is_opus_tags(p2s) || is_vorbis_comment_magic(p2s) {
                assert(pages@.map_values(|p: OggParsedPage| p@) =~= seq![
                    first,
                    pages@.map_values(|p: OggParsedPage| p@)[1],
                ]);
            } else {
                assert(pages@.map_values(|p: OggParsedPage| p@) =~= seq![first]);
            }
        }
        Ok(Ogg { pages })
    }

    /// Decodes a `METADATA_BLOCK_PICTURE` comment value: a base64-encoded
    /// FLAC PICTURE structure.
    pub fn parse_picture(value: &str) -> (r: Result<crate::flac::Picture, DecodeError>)
        ensures
            match spec_b64_decode(vstd::utf8::encode_utf8(value@)) {
                None => r == Err::<crate::flac::Picture, DecodeError>(
                    DecodeError::EncodingViolation { offset: 0 },
                ),
                Some(bytes) => match crate::flac::spec_decode_picture(bytes) {
                    Ok(p) => r matches Ok(pic) && pic@ == p,
                    Err(e) => r == Err::<crate::flac::Picture, DecodeError>(e),
                },
            },
    {
        match b64_decode(value.as_bytes()) {
            None => Err(DecodeError::EncodingViolation { offset: 0 }),
            Some(bytes) => crate::flac::Picture::from_bytes(bytes.as_slice()),
        }
    }

    /// The classified pages: the identification header and, when
    /// present, the comment header.
    pub fn pages(&self) -> (r: &Vec<OggParsedPage>)
        ensures
            r@.len() == self@.len(),
            forall|i: int| 0 <= i < r@.len() ==> #[trigger] r@[i]@ == self@[i],
    {
        &self.pages
    }
}

/// Law: a successfully parsed page's payload length equals the sum of
/// its segment-length table, and the page occupies exactly its 27 header
/// bytes, its table and its payload.
pub proof fn lemma_ogg_page_payload(d: Seq<u8>, pos: int)
    requires
        0 <= pos,
        spec_parse_segment(d, pos) is Ok,
    ensures
        ({
            let (sv, p2) = spec_parse_segment(d, pos)->Ok_0;
            &&& sv.data.len() == lace_sum(d.subrange(pos + 27, pos + 27 + sv.total_segments))
            &&& p2 == pos + 27 + sv.total_segments + sv.data.len()
        }),
{
    let ts = d[pos + 26];
    let sum = lace_sum(d.subrange(pos + 27, pos + 27 + ts));
    assert(lace_sum(Seq::<u8>::empty()) == 0);
    lemma_lace_sum_bounds(d.subrange(pos + 27, pos + 27 + ts));
    assert(d.subrange(pos + 27 + ts, pos + 27 + ts + sum).len() == sum);
}

/// The sum of a lacing table is non-negative and at most 255 per entry.
pub proof fn lemma_lace_sum_bounds(s: Seq<u8>)
    ensures
        0 <= lace_sum(s) <= 255 * s.len(),
    decreases s.len(),
{
    if s.len() != 0 {
        lemma_lace_sum_bounds(s.drop_first());
    }
}

/// The first page index after the packet chain that starts at `start`.
pub open spec fn chain_end(segs: Seq<SegmentView>, cur: int, start: int) -> int
    decreases segs.len() - cur,
    when cur >= 0
{
    if cur < 0 || cur >= segs.len() {
        cur
    } else if cur > start && segs[cur].flags != 0x01 {
        cur
    } else if segs[cur].flags == 0x04 {
        cur + 1
    } else {
        chain_end(segs, cur + 1, start)
    }
}

/// The concatenated payloads of the pages with indices in `[a, b)`.
pub open spec fn concat_data(segs: Seq<SegmentView>, a: int, b: int) -> Seq<u8>
    decreases b - a,
    when b <= segs.len()
{
    if a >= b || a < 0 {
        seq![]
    } else {
        segs[a].data + concat_data(segs, a + 1, b)
    }
}

/// Law: packet reassembly includes exactly the pages chained to the
/// start page by the continuation flag — the start page, then
/// consecutive pages whose flags mark a continuation — and stops at the
/// first page whose end-of-stream flag is set; the reassembled bytes are
/// the concatenation of exactly those pages' payloads.
pub proof fn lemma_ogg_reassembly(segs: Seq<SegmentView>, cur: int, start: int)
    requires
        start <= cur,
        0 <= cur <= segs.len(),
    ensures
        ({
            let e = chain_end(segs, cur, start);
            &&& cur <= e <= segs.len()
            &&& (cur < segs.len() && !(cur > start && segs[cur].flags != 0x01) ==> e > cur)
            &&& forall|i: int| cur < i < e ==> (#[trigger] segs[i]).flags == 0x01
            &&& (cur < segs.len() && segs[cur].flags == 0x04 && !(cur > start && segs[cur].flags
                != 0x01) ==> e == cur + 1)
            &&& (e < segs.len() && (e == cur || segs[e - 1].flags != 0x04) ==> (segs[e].flags
                != 0x01 || e == cur))
            &&& spec_reassemble_from(segs, cur, start) == concat_data(segs, cur, e)
        }),
    decreases segs.len() - cur,
{
    let e = chain_end(segs, cur, start);
    if cur >= segs.len() {
        assert(spec_reassemble_from(segs, cur, start) =~= concat_data(segs, cur, e));
    } else if cur > start && segs[cur].flags != 0x01 {
        assert(e == cur);
        assert(spec_reassemble_from(segs, cur, start) =~= concat_data(segs, cur, e));
    } else if segs[cur].flags == 0x04 {
        assert(e == cur + 1);
        assert(concat_data(segs, cur + 1, e) =~= Seq::<u8>::empty());
        assert(spec_reassemble_from(segs, cur, start) =~= segs[cur].data + Seq::<u8>::empty());
        assert(spec_reassemble_from(segs, cur, start) =~= concat_data(segs, cur, e));
    } else {
        lemma_ogg_reassembly(segs, cur + 1, start);
        assert(e == chain_end(segs, cur + 1, start));
        assert(spec_reassemble_from(segs, cur, start) == segs[cur].data + spec_reassemble_from(
            segs,
            cur + 1,
            start,
        ));
        assert forall|i: int| cur < i < e implies (#[trigger] segs[i]).flags == 0x01 by {
            if i == cur + 1 {
                assert(cur + 1 < e);
                assert(cur + 1 < segs.len());
                if segs[cur + 1].flags != 0x01 {
                    assert(chain_end(segs, cur + 1, start) == cur + 1);
                }
            }
        }
        assert(cur < e);
        assert(spec_reassemble_from(segs, cur, start) =~= concat_data(segs, cur, e));
    }
}

} // verus!
