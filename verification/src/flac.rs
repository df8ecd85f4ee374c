//! FLAC metadata blocks: a 4-byte `fLaC` signature followed by a chain of
//! blocks, each with a 1-byte header (7-bit type id plus a last-block
//! flag) and a 3-byte big-endian length. STREAMINFO, PICTURE and
//! VORBIS_COMMENT blocks are decoded; other blocks pass through as opaque
//! records.

use vstd::prelude::*;
use vstd::utf8::{decode_utf8, is_leading_byte_width_1, valid_utf8};

use crate::reader::{be_val, ByteReader};
use crate::text::string_from_utf8;
use crate::vorbis_comment::{spec_parse_vorbis_comment, VorbisComment, VorbisCommentView};
use crate::DecodeError;

verus! {

/// True when the buffer begins with the FLAC signature `fLaC`.
pub open spec fn flac_signature(d: Seq<u8>) -> bool {
    d.len() >= 4 && d[0] == 0x66u8 && d[1] == 0x4Cu8 && d[2] == 0x61u8 && d[3] == 0x43u8
}

/// Mathematical model of one raw metadata block.
pub ghost struct BlockView {
    pub id: u8,
    pub is_last: bool,
    pub data: Seq<u8>,
}

/// Mathematical model of a decoded STREAMINFO block.
pub ghost struct StreamInfoView {
    pub minimum_block_size: nat,
    pub maximum_block_size: nat,
    pub minimum_frame_size: nat,
    pub maximum_frame_size: nat,
    pub sample_rate: nat,
    pub channels: nat,
    pub bits_per_sample: nat,
    pub total_samples: nat,
    pub md5: Seq<char>,
}

/// Mathematical model of a decoded PICTURE block.
pub ghost struct PictureView {
    pub picture_type: u8,
    pub mime: Seq<char>,
    pub desc: Seq<char>,
    pub width: nat,
    pub height: nat,
    pub color_depth: nat,
    pub indexed_color: nat,
    pub declared_len: nat,
    pub data: Seq<u8>,
}

/// Mathematical model of one classified block.
pub ghost enum FlacBlockView {
    StreamInfo(StreamInfoView),
    Comment(VorbisCommentView),
    Picture(PictureView),
    Raw(BlockView),
}

/// The lowercase hex digit (as an ASCII byte) for a value below 16.
pub open spec fn hex_digit(n: u8) -> u8
    recommends
        n < 16,
{
    if n < 10 {
        (n + 0x30) as u8
    } else {
        (n + 0x57) as u8
    }
}

/// The ASCII bytes of the lowercase two-digit hex rendering of each byte.
pub open spec fn hex_bytes(b: Seq<u8>) -> Seq<u8> {
    Seq::new(
        2 * b.len(),
        |i: int|
            if i % 2 == 0 {
                hex_digit(b[i / 2] / 16)
            } else {
                hex_digit(b[i / 2] % 16)
            },
    )
}

/// Renders bytes as lowercase hex, two digits per byte.
fn to_hex(b: &[u8]) -> (r: String)
    ensures
        r@ == decode_utf8(hex_bytes(b@)),
{
    let mut out: Vec<u8> = Vec::new();
    let mut i: usize = 0;
    proof {
        vstd::slice::axiom_spec_len(b);
    }
    while i < b.len()
        invariant
            0 <= i <= b@.len(),
            b@.len() <= usize::MAX,
            out@.len() == 2 * i,
            forall|k: int| 0 <= k < 2 * i ==> out@[k] == hex_bytes(b@)[k],
            forall|k: int| 0 <= k < 2 * i ==> out@[k] < 0x80u8,
        decreases b@.len() - i,
    {
        let hi = b[i] / 16;
        let lo = b[i] % 16;
        let dh = if hi < 10 {
            hi + 0x30
        } else {
            hi + 0x57
        };
        let dl = if lo < 10 {
            lo + 0x30
        } else {
            lo + 0x57
        };
        out.push(dh);
        out.push(dl);
        i = i + 1;
    }
    proof {
        assert(out@ =~= hex_bytes(b@));
        assert forall|k: int| 0 <= k < out@.len() implies is_leading_byte_width_1(out@[k]) by {
            assert(out@[k] < 0x80u8);
        }
        vstd::utf8::partial_valid_utf8_extend_ascii_block(out@, 0, out@.len() as int);
        assert(out@.subrange(0, out@.len() as int) =~= out@);
        assert(valid_utf8(out@));
    }
    match string_from_utf8(out) {
        Some(s) => s,
        None => {
            proof {
                assert(false);
            }
            String::new()
        },
    }
}

/// The STREAMINFO fields unpacked from a block payload: 16-bit block-size
/// bounds, 24-bit frame-size bounds, then sample rate (20 bits), channel
/// count (3 bits, stored minus one), bits per sample (5 bits, stored
/// minus one) and total sample count (36 bits) packed across 8 bytes,
/// and a 16-byte audio fingerprint rendered as lowercase hex.
pub open spec fn spec_decode_stream_info(b: Seq<u8>) -> Result<StreamInfoView, DecodeError> {
    if b.len() < 34 {
        Err(DecodeError::BoundsViolation { offset: 0 })
    } else {
        Ok(
            StreamInfoView {
                minimum_block_size: (b[0] as nat) * 0x100 + (b[1] as nat),
                maximum_block_size: (b[2] as nat) * 0x100 + (b[3] as nat),
                minimum_frame_size: (b[4] as nat) * 0x10000 + (b[5] as nat) * 0x100 + (b[6] as nat),
                maximum_frame_size: (b[7] as nat) * 0x10000 + (b[8] as nat) * 0x100 + (b[9] as nat),
                sample_rate: (b[10] as nat) * 0x1000 + (b[11] as nat) * 0x10 + (b[12] as nat)
                    / 0x10,
                channels: ((b[12] as nat) / 2) % 8 + 1,
                bits_per_sample: ((b[12] as nat) % 2) * 0x10 + (b[13] as nat) / 0x10 + 1,
                total_samples: ((b[13] as nat) % 0x10) * 0x100000000 + (b[14] as nat) * 0x1000000 + (
                b[15] as nat) * 0x10000 + (b[16] as nat) * 0x100 + (b[17] as nat),
                md5: decode_utf8(hex_bytes(b.subrange(18, 34))),
            },
        )
    }
}

/// The PICTURE fields read from a block payload: big-endian 32-bit fields
/// around a length-prefixed MIME string and description, then the
/// remainder of the block as the image bytes.
pub open spec fn spec_decode_picture(b: Seq<u8>) -> Result<PictureView, DecodeError> {
    let n = b.len() as int;
    if 4 > n {
        Err(DecodeError::BoundsViolation { offset: 0 })
    } else if 8 > n {
        Err(DecodeError::BoundsViolation { offset: 4 })
    } else {
        let ml = be_val(b.subrange(4, 8)) as int;
        if 8 + ml > n {
            Err(DecodeError::BoundsViolation { offset: 8 })
        } else if !valid_utf8(b.subrange(8, 8 + ml)) {
            Err(DecodeError::EncodingViolation { offset: 8 })
        } else {
            let p = 8 + ml;
            if p + 4 > n {
                Err(DecodeError::BoundsViolation { offset: p as usize })
            } else {
                let dl = be_val(b.subrange(p, p + 4)) as int;
                if p + 4 + dl > n {
                    Err(DecodeError::BoundsViolation { offset: (p + 4) as usize })
                } else if !valid_utf8(b.subrange(p + 4, p + 4 + dl)) {
                    Err(DecodeError::EncodingViolation { offset: (p + 4) as usize })
                } else {
                    let q = p + 4 + dl;
                    if q + 4 > n {
                        Err(DecodeError::BoundsViolation { offset: q as usize })
                    } else if q + 8 > n {
                        Err(DecodeError::BoundsViolation { offset: (q + 4) as usize })
                    } else if q + 12 > n {
                        Err(DecodeError::BoundsViolation { offset: (q + 8) as usize })
                    } else if q + 16 > n {
                        Err(DecodeError::BoundsViolation { offset: (q + 12) as usize })
                    } else if q + 20 > n {
                        Err(DecodeError::BoundsViolation { offset: (q + 16) as usize })
                    } else {
                        Ok(
                            PictureView {
                                picture_type: (be_val(b.subrange(0, 4)) % 0x100) as u8,
                                mime: decode_utf8(b.subrange(8, 8 + ml)),
                                desc: decode_utf8(b.subrange(p + 4, p + 4 + dl)),
                                width: be_val(b.subrange(q, q + 4)),
                                height: be_val(b.subrange(q + 4, q + 8)),
                                color_depth: be_val(b.subrange(q + 8, q + 12)),
                                indexed_color: be_val(b.subrange(q + 12, q + 16)),
                                declared_len: be_val(b.subrange(q + 16, q + 20)),
                                data: b.subrange(q + 20, n),
                            },
                        )
                    }
                }
            }
        }
    }
}

/// One raw block at `pos`: a header byte (bit 7 is the last-block flag,
/// the low 7 bits the type id), a 3-byte big-endian payload length, then
/// the payload.
pub open spec fn spec_parse_block(d: Seq<u8>, pos: int) -> Result<(BlockView, int), DecodeError> {
    if pos + 1 > d.len() {
        Err(DecodeError::BoundsViolation { offset: pos as usize })
    } else if pos + 4 > d.len() {
        Err(DecodeError::BoundsViolation { offset: (pos + 1) as usize })
    } else {
        let header = d[pos];
        let len = be_val(d.subrange(pos + 1, pos + 4)) as int;
        if pos + 4 + len > d.len() {
            Err(DecodeError::BoundsViolation { offset: (pos + 4) as usize })
        } else {
            Ok(
                (
                    BlockView {
                        id: header & 0x7F,
                        is_last: (header & 0x80) != 0,
                        data: d.subrange(pos + 4, pos + 4 + len),
                    },
                    pos + 4 + len,
                ),
            )
        }
    }
}

/// One raw FLAC metadata block: type id, last-block flag, declared
/// payload length and payload bytes.
pub struct Block {
    pub id: u8,
    pub is_last: bool,
    pub len: usize,
    pub data: Vec<u8>,
}

impl View for Block {
    type V = BlockView;

    open spec fn view(&self) -> BlockView {
        BlockView { id: self.id, is_last: self.is_last, data: self.data@ }
    }
}

impl Block {
    /// Reads one block at the cursor's position.
    pub fn new(reader: &mut ByteReader) -> (r: Result<Block, DecodeError>)
        requires
            old(reader).wf(),
        ensures
            final(reader).wf(),
            final(reader).data() == old(reader).data(),
            match spec_parse_block(old(reader).data(), old(reader).pos()) {
                Ok((bv, p2)) => r matches Ok(b) && b@ == bv && b.len == bv.data.len()
                    && final(reader).pos() == p2,
                Err(e) => r == Err::<Block, DecodeError>(e),
            },
    {
        let header = match reader.read_u8() {
            Ok(v) => v,
            Err(e) => { return Err(e) },
        };
        let len64 = match reader.read_uint_be(3) {
            Ok(v) => v,
            Err(e) => { return Err(e) },
        };
        proof {
            assert(crate::reader::pow256(3) == 0x1000000) by {
                reveal_with_fuel(crate::reader::pow256, 4);
            }
        }
        let len = len64 as usize;
        let data = match reader.read_vec(len) {
            Ok(v) => v,
            Err(e) => { return Err(e) },
        };
        proof {
            let d = old(reader).data();
            let pos = old(reader).pos();
            assert(pos + 4 + len <= d.len());
            assert(d.subrange(pos + 4, pos + 4 + len).len() == len);
            assert(data@.len() == len);
        }
        Ok(Block { id: header & 0x7F, is_last: (header & 0x80) != 0, len, data })
    }
}

/// A decoded STREAMINFO block.
pub struct StreamInfo {
    pub minimum_block_size: u32,
    pub maximum_block_size: u32,
    pub minimum_frame_size: u32,
    pub maximum_frame_size: u32,
    pub sample_rate: u32,
    pub channels: u8,
    pub bits_per_sample: u8,
    pub total_samples: u64,
    pub md5: String,
}

impl View for StreamInfo {
    type V = StreamInfoView;

    open spec fn view(&self) -> StreamInfoView {
        StreamInfoView {
            minimum_block_size: self.minimum_block_size as nat,
            maximum_block_size: self.maximum_block_size as nat,
            minimum_frame_size: self.minimum_frame_size as nat,
            maximum_frame_size: self.maximum_frame_size as nat,
            sample_rate: self.sample_rate as nat,
            channels: self.channels as nat,
            bits_per_sample: self.bits_per_sample as nat,
            total_samples: self.total_samples as nat,
            md5: self.md5@,
        }
    }
}

impl StreamInfo {
    /// Unpacks the STREAMINFO fields from a block's payload.
    pub fn new(block: &Block) -> (r: Result<StreamInfo, DecodeError>)
        ensures
            match spec_decode_stream_info(block@.data) {
                Ok(v) => r matches Ok(s) && s@ == v,
                Err(e) => r == Err::<StreamInfo, DecodeError>(e),
            },
    {
        let d = &block.data;
        if d.len() < 34 {
            return Err(DecodeError::BoundsViolation { offset: 0 });
        }
        let minimum_block_size: u32 = (d[0] as u32) * 0x100 + (d[1] as u32);
        let maximum_block_size: u32 = (d[2] as u32) * 0x100 + (d[3] as u32);
        let minimum_frame_size: u32 = (d[4] as u32) * 0x10000 + (d[5] as u32) * 0x100 + (
        d[6] as u32);
        let maximum_frame_size: u32 = (d[7] as u32) * 0x10000 + (d[8] as u32) * 0x100 + (
        d[9] as u32);
        let sample_rate: u32 = (d[10] as u32) * 0x1000 + (d[11] as u32) * 0x10 + (d[12] as u32)
            / 0x10;
        let channels: u8 = (d[12] / 2) % 8 + 1;
        let bits_per_sample: u8 = (d[12] % 2) * 0x10 + d[13] / 0x10 + 1;
        let total_samples: u64 = ((d[13] % 0x10) as u64) * 0x100000000 + (d[14] as u64) * 0x1000000
            + (d[15] as u64) * 0x10000 + (d[16] as u64) * 0x100 + (d[17] as u64);
        let sl = d.as_slice();
        let md5 = to_hex(&sl[18..34]);
        proof {
            assert(sl@.subrange(18, 34) == block@.data.subrange(18, 34));
        }
        Ok(
            StreamInfo {
                minimum_block_size,
                maximum_block_size,
                minimum_frame_size,
                maximum_frame_size,
                sample_rate,
                channels,
                bits_per_sample,
                total_samples,
                md5,
            },
        )
    }

    /// True when the block's type id marks a STREAMINFO block.
    pub fn is_stream_info(block: &Block) -> (r: bool)
        ensures
            r == (block@.id == 0),
    {
        block.id == 0x00
    }
}

/// A decoded PICTURE block.
pub struct Picture {
    pub picture_type: u8,
    pub mime: String,
    pub desc: String,
    pub declared_len: u32,
    pub width: u32,
    pub height: u32,
    pub color_depth: u32,
    pub indexed_color: u32,
    pub data: Vec<u8>,
}

impl View for Picture {
    type V = PictureView;

    open spec fn view(&self) -> PictureView {
        PictureView {
            picture_type: self.picture_type,
            mime: self.mime@,
            desc: self.desc@,
            width: self.width as nat,
            height: self.height as nat,
            color_depth: self.color_depth as nat,
            indexed_color: self.indexed_color as nat,
            declared_len: self.declared_len as nat,
            data: self.data@,
        }
    }
}

impl Picture {
    /// Decodes a PICTURE block's payload.
    pub fn new(block: &Block) -> (r: Result<Picture, DecodeError>)
        ensures
            match spec_decode_picture(block@.data) {
                Ok(v) => r matches Ok(p) && p@ == v,
                Err(e) => r == Err::<Picture, DecodeError>(e),
            },
    {
        Picture::from_bytes(block.data.as_slice())
    }

    /// Decodes a PICTURE structure from raw bytes.
    pub fn from_bytes(bytes: &[u8]) -> (r: Result<Picture, DecodeError>)
        ensures
            match spec_decode_picture(bytes@) {
                Ok(v) => r matches Ok(p) && p@ == v,
                Err(e) => r == Err::<Picture, DecodeError>(e),
            },
    {
        let mut reader = ByteReader::new(bytes);
        let type_word = match reader.read_u32(true) {
            Ok(v) => v,
            Err(e) => { return Err(e) },
        };
        let picture_type = (type_word % 0x100) as u8;
        let mime_len = match reader.read_u32(true) {
            Ok(v) => v,
            Err(e) => { return Err(e) },
        };
        let mime = match reader.read_utf8_fixed(mime_len as usize) {
            Ok(s) => s,
            Err(e) => { return Err(e) },
        };
        let desc_len = match reader.read_u32(true) {
            Ok(v) => v,
            Err(e) => { return Err(e) },
        };
        let desc = match reader.read_utf8_fixed(desc_len as usize) {
            Ok(s) => s,
            Err(e) => { return Err(e) },
        };
        let width = match reader.read_u32(true) {
            Ok(v) => v,
            Err(e) => { return Err(e) },
        };
        let height = match reader.read_u32(true) {
            Ok(v) => v,
            Err(e) => { return Err(e) },
        };
        let color_depth = match reader.read_u32(true) {
            Ok(v) => v,
            Err(e) => { return Err(e) },
        };
        let indexed_color = match reader.read_u32(true) {
            Ok(v) => v,
            Err(e) => { return Err(e) },
        };
        let declared_len = match reader.read_u32(true) {
            Ok(v) => v,
            Err(e) => { return Err(e) },
        };
        let data = reader.read_remaining();
        Ok(
            Picture {
                picture_type,
                mime,
                desc,
                declared_len,
                width,
                height,
                color_depth,
                indexed_color,
                data,
            },
        )
    }

    /// True when the block's type id marks a PICTURE block.
    pub fn is_picture(block: &Block) -> (r: bool)
        ensures
            r == (block@.id == 6),
    {
        block.id == 0x06
    }

    /// The MIME type string.
    pub fn mime(&self) -> (r: &str)
        ensures
            r@ == self@.mime,
    {
        self.mime.as_str()
    }

    /// The description string.
    pub fn description(&self) -> (r: &str)
        ensures
            r@ == self@.desc,
    {
        self.desc.as_str()
    }

    /// The raw image bytes.
    pub fn data(&self) -> (r: &[u8])
        ensures
            r@ == self@.data,
    {
        self.data.as_slice()
    }
}

/// A VORBIS_COMMENT block decoded through the shared Vorbis comment
/// decoder.
pub struct Comments {
    inner: VorbisComment,
}

impl View for Comments {
    type V = VorbisCommentView;

    closed spec fn view(&self) -> VorbisCommentView {
        self.inner@
    }
}

impl Comments {
    /// Decodes a VORBIS_COMMENT block's payload.
    pub fn new(block: &Block) -> (r: Result<Comments, DecodeError>)
        ensures
            match spec_parse_vorbis_comment(block@.data, 0) {
                Ok((v, _)) => r matches Ok(c) && c@ == v,
                Err(e) => r == Err::<Comments, DecodeError>(e),
            },
    {
        match VorbisComment::new(block.data.as_slice()) {
            Ok(inner) => Ok(Comments { inner }),
            Err(e) => Err(e),
        }
    }

    /// True when the block's type id marks a VORBIS_COMMENT block.
    pub fn is_comment(block: &Block) -> (r: bool)
        ensures
            r == (block@.id == 4),
    {
        block.id == 0x04
    }
}

/// Classifies one raw block by its type id: 0 is STREAMINFO, 4 is
/// VORBIS_COMMENT, 6 is PICTURE; every other id passes through as an
/// opaque raw block.
pub open spec fn spec_classify_block(bv: BlockView) -> Result<FlacBlockView, DecodeError> {
    if bv.id == 0 {
        match spec_decode_stream_info(bv.data) {
            Ok(s) => Ok(FlacBlockView::StreamInfo(s)),
            Err(e) => Err(e),
        }
    } else if bv.id == 4 {
        match spec_parse_vorbis_comment(bv.data, 0) {
            Ok((v, _)) => Ok(FlacBlockView::Comment(v)),
            Err(e) => Err(e),
        }
    } else if bv.id == 6 {
        match spec_decode_picture(bv.data) {
            Ok(p) => Ok(FlacBlockView::Picture(p)),
            Err(e) => Err(e),
        }
    } else {
        Ok(FlacBlockView::Raw(bv))
    }
}

/// The raw block chain from `pos`: one block after another, ending with
/// the first block whose last-block flag is set or with the end of the
/// buffer; also yields the position after the chain.
pub open spec fn spec_walk_raw(d: Seq<u8>, pos: int) -> Result<(Seq<BlockView>, int), DecodeError>
    decreases d.len() - pos,
    when 0 <= pos <= d.len()
{
    match spec_parse_block(d, pos) {
        Err(e) => Err(e),
        Ok((bv, p2)) => if bv.is_last || p2 == d.len() {
            Ok((seq![bv], p2))
        } else {
            match spec_walk_raw(d, p2) {
                Err(e) => Err(e),
                Ok((rest, pe)) => Ok((seq![bv] + rest, pe)),
            }
        },
    }
}

/// The classified block chain from `pos`, decoding each block as it is
/// read (so the first error — parse or classification — wins).
pub open spec fn spec_walk_blocks(d: Seq<u8>, pos: int) -> Result<Seq<FlacBlockView>, DecodeError>
    decreases d.len() - pos,
    when 0 <= pos <= d.len()
{
    match spec_parse_block(d, pos) {
        Err(e) => Err(e),
        Ok((bv, p2)) => match spec_classify_block(bv) {
            Err(e) => Err(e),
            Ok(cb) => if bv.is_last || p2 == d.len() {
                Ok(seq![cb])
            } else {
                match spec_walk_blocks(d, p2) {
                    Err(e) => Err(e),
                    Ok(rest) => Ok(seq![cb] + rest),
                }
            },
        },
    }
}

/// A whole FLAC buffer: the `fLaC` signature, then the block chain.
pub open spec fn spec_parse_flac(d: Seq<u8>) -> Result<Seq<FlacBlockView>, DecodeError> {
    if !flac_signature(d) {
        Err(DecodeError::SignatureMismatch { offset: 0 })
    } else {
        spec_walk_blocks(d, 4)
    }
}

/// One classified FLAC metadata block.
pub enum FlacParsedBlock {
    StreamInfo(StreamInfo),
    Comment(VorbisComment),
    Picture(Picture),
    Raw(Block),
}

impl View for FlacParsedBlock {
    type V = FlacBlockView;

    open spec fn view(&self) -> FlacBlockView {
        match self {
            FlacParsedBlock::StreamInfo(s) => FlacBlockView::StreamInfo(s@),
            FlacParsedBlock::Comment(c) => FlacBlockView::Comment(c@),
            FlacParsedBlock::Picture(p) => FlacBlockView::Picture(p@),
            FlacParsedBlock::Raw(b) => FlacBlockView::Raw(b@),
        }
    }
}

/// Decodes one raw block into its classified form.
fn classify_block(block: Block) -> (r: Result<FlacParsedBlock, DecodeError>)
    ensures
        match spec_classify_block(block@) {
            Ok(cb) => r matches Ok(pb) && pb@ == cb,
            Err(e) => r == Err::<FlacParsedBlock, DecodeError>(e),
        },
{
    if StreamInfo::is_stream_info(&block) {
        match StreamInfo::new(&block) {
            Ok(s) => Ok(FlacParsedBlock::StreamInfo(s)),
            Err(e) => Err(e),
        }
    } else if Comments::is_comment(&block) {
        match Comments::new(&block) {
            Ok(c) => Ok(FlacParsedBlock::Comment(c.inner)),
            Err(e) => Err(e),
        }
    } else if Picture::is_picture(&block) {
        match Picture::new(&block) {
            Ok(p) => Ok(FlacParsedBlock::Picture(p)),
            Err(e) => Err(e),
        }
    } else {
        Ok(FlacParsedBlock::Raw(block))
    }
}

/// Joins an already-classified block prefix with the outcome of walking
/// the remaining blocks.
pub open spec fn walk_join(
    prefix: Seq<FlacBlockView>,
    rest: Result<Seq<FlacBlockView>, DecodeError>,
) -> Result<Seq<FlacBlockView>, DecodeError> {
    match rest {
        Ok(s) => Ok(prefix + s),
        Err(e) => Err(e),
    }
}

/// A decoded FLAC stream: the ordered list of classified metadata blocks.
pub struct Flac {
    blocks: Vec<FlacParsedBlock>,
}

impl View for Flac {
    type V = Seq<FlacBlockView>;

    closed spec fn view(&self) -> Seq<FlacBlockView> {
        self.blocks@.map_values(|b: FlacParsedBlock| b@)
    }
}

impl Flac {
    /// True when the buffer begins with the FLAC signature.
    pub fn is_format(bytes: &[u8]) -> (r: bool)
        ensures
            r == flac_signature(bytes@),
    {
        bytes.len() >= 4 && bytes[0] == 0x66 && bytes[1] == 0x4C && bytes[2] == 0x61 && bytes[3]
            == 0x43
    }

    /// Decodes the metadata block chain of a FLAC buffer.
    #[verifier::loop_isolation(false)]
    pub fn from_bytes(bytes: &[u8]) -> (r: Result<Flac, DecodeError>)
        ensures
            match spec_parse_flac(bytes@) {
                Ok(s) => r matches Ok(f) && f@ == s,
                Err(e) => r == Err::<Flac, DecodeError>(e),
            },
    {
        if !Flac::is_format(bytes) {
            return Err(DecodeError::SignatureMismatch { offset: 0 });
        }
        let ghost d = bytes@;
        let mut reader = match ByteReader::with_offset(bytes, 4) {
            Ok(r) => r,
            Err(_) => {
                proof {
                    assert(false);
                }
                return Err(DecodeError::SignatureMismatch { offset: 0 });
            },
        };
        let ghost target = spec_walk_blocks(d, 4);
        let mut blocks: Vec<FlacParsedBlock> = Vec::new();
        let mut done = false;
        proof {
            if target is Ok {
                assert(Seq::<FlacBlockView>::empty() + target->Ok_0 =~= target->Ok_0);
            }
        }
        while !done
            invariant
                reader.wf(),
                reader.data() == d,
                !done ==> target == walk_join(
                    blocks@.map_values(|b: FlacParsedBlock| b@),
                    spec_walk_blocks(d, reader.pos()),
                ),
                done ==> target == Ok::<Seq<FlacBlockView>, DecodeError>(
                    blocks@.map_values(|b: FlacParsedBlock| b@),
                ),
            decreases d.len() - reader.pos() + (if done {
                0int
            } else {
                1int
            }),
        {
            let ghost p_cur = reader.pos();
            let ghost built = blocks@.map_values(|b: FlacParsedBlock| b@);
            let block = match Block::new(&mut reader) {
                Ok(b) => b,
                Err(e) => { return Err(e) },
            };
            let ghost bv = block@;
            let ghost p2 = reader.pos();
            let is_last_flag = block.is_last;
            let pb = match classify_block(block) {
                Ok(p) => p,
                Err(e) => { return Err(e) },
            };
            let ghost cb = pb@;
            blocks.push(pb);
            if is_last_flag || reader.is_end() {
                done = true;
            }
            proof {
                assert(blocks@.map_values(|b: FlacParsedBlock| b@) =~= built.push(cb));
                if bv.is_last || p2 == d.len() {
                    assert(spec_walk_blocks(d, p_cur) == Ok::<Seq<FlacBlockView>, DecodeError>(
                        seq![cb],
                    ));
                    assert(built + seq![cb] =~= built.push(cb));
                } else {
                    let rest = spec_walk_blocks(d, p2);
                    if rest is Ok {
                        assert(built + (seq![cb] + rest->Ok_0) =~= built.push(cb) + rest->Ok_0);
                    }
                }
            }
        }
        Ok(Flac { blocks })
    }

    /// The ordered list of classified blocks.
    pub fn blocks(&self) -> (r: &Vec<FlacParsedBlock>)
        ensures
            r@.len() == self@.len(),
            forall|i: int| 0 <= i < r@.len() ==> #[trigger] r@[i]@ == self@[i],
    {
        &self.blocks
    }
}

/// Total number of buffer bytes a block chain accounts for: four header
/// bytes plus the declared payload length of each block.
pub open spec fn blocks_extent(s: Seq<BlockView>) -> int
    decreases s.len(),
{
    if s.len() == 0 {
        0
    } else {
        4 + s[0].data.len() + blocks_extent(s.drop_first())
    }
}

/// Law: a successful raw block walk returns at least one block, stops
/// exactly at the first block whose last-block flag is set (or at the end
/// of the buffer), and consumes exactly the four header bytes plus the
/// declared 3-byte length of every block it returns — never more.
pub proof fn lemma_flac_walk_structure(d: Seq<u8>, pos: int)
    requires
        0 <= pos <= d.len(),
        spec_walk_raw(d, pos) is Ok,
    ensures
        ({
            let (s, end) = spec_walk_raw(d, pos)->Ok_0;
            &&& s.len() > 0
            &&& forall|i: int| 0 <= i < s.len() - 1 ==> !(#[trigger] s[i]).is_last
            &&& (s[s.len() - 1].is_last || end == d.len())
            &&& end == pos + blocks_extent(s)
            &&& end <= d.len()
        }),
    decreases d.len() - pos,
{
    let (s, end) = spec_walk_raw(d, pos)->Ok_0;
    let (bv, p2) = spec_parse_block(d, pos)->Ok_0;
    let len = be_val(d.subrange(pos + 1, pos + 4)) as int;
    assert(d.subrange(pos + 4, pos + 4 + len).len() == len);
    assert(bv.data.len() == len);
    if bv.is_last || p2 == d.len() {
        assert(s == seq![bv]);
        assert(s.drop_first() =~= Seq::<BlockView>::empty());
        assert(blocks_extent(Seq::<BlockView>::empty()) == 0);
        assert(blocks_extent(s) == 4 + len);
    } else {
        let (rest, pe) = spec_walk_raw(d, p2)->Ok_0;
        lemma_flac_walk_structure(d, p2);
        assert(s == seq![bv] + rest);
        assert(s.drop_first() =~= rest);
        assert(s[s.len() - 1] == rest[rest.len() - 1]);
        assert forall|i: int| 0 <= i < s.len() - 1 implies !(#[trigger] s[i]).is_last by {
            if i > 0 {
                assert(s[i] == rest[i - 1]);
            }
        }
    }
}

/// Law: classification keeps the block list one for one — an element of a
/// successful walk is a STREAMINFO record exactly when its wire id is 0,
/// a comment exactly when it is 4, a picture exactly when it is 6, and
/// every other id is preserved as an opaque, re-enumerable raw block.
pub proof fn lemma_flac_classification(d: Seq<u8>, pos: int)
    requires
        0 <= pos <= d.len(),
        spec_walk_blocks(d, pos) is Ok,
    ensures
        spec_walk_raw(d, pos) is Ok,
        ({
            let cs = spec_walk_blocks(d, pos)->Ok_0;
            let (s, end) = spec_walk_raw(d, pos)->Ok_0;
            &&& cs.len() == s.len()
            &&& forall|i: int|
                0 <= i < s.len() ==> (((#[trigger] cs[i]) is StreamInfo) <==> s[i].id == 0)
            &&& forall|i: int|
                0 <= i < s.len() ==> (((#[trigger] cs[i]) is Comment) <==> s[i].id == 4)
            &&& forall|i: int|
                0 <= i < s.len() ==> (((#[trigger] cs[i]) is Picture) <==> s[i].id == 6)
            &&& forall|i: int|
                0 <= i < s.len() ==> (((#[trigger] cs[i]) is Raw) <==> (s[i].id != 0 && s[i].id != 4
                    && s[i].id != 6))
            &&& forall|i: int| 0 <= i < s.len() && cs[i] is Raw ==> (#[trigger] cs[i])->Raw_0
                == s[i]
        }),
    decreases d.len() - pos,
{
    let cs = spec_walk_blocks(d, pos)->Ok_0;
    let (bv, p2) = spec_parse_block(d, pos)->Ok_0;
    let cb = spec_classify_block(bv)->Ok_0;
    if bv.is_last || p2 == d.len() {
        assert(cs == seq![cb]);
        assert(spec_walk_raw(d, pos) == Ok::<(Seq<BlockView>, int), DecodeError>((seq![bv], p2)));
    } else {
        lemma_flac_classification(d, p2);
        let rest_c = spec_walk_blocks(d, p2)->Ok_0;
        let (rest_r, pe) = spec_walk_raw(d, p2)->Ok_0;
        assert(cs == seq![cb] + rest_c);
        let s = spec_walk_raw(d, pos)->Ok_0.0;
        assert(s == seq![bv] + rest_r);
        assert forall|i: int| 0 <= i < s.len() implies (((#[trigger] cs[i]) is StreamInfo)
            <==> s[i].id == 0) && (((cs[i]) is Comment) <==> s[i].id == 4) && (((cs[i]) is Picture)
            <==> s[i].id == 6) && (((cs[i]) is Raw) <==> (s[i].id != 0 && s[i].id != 4 && s[i].id
            != 6)) && (cs[i] is Raw ==> cs[i]->Raw_0 == s[i]) by {
            if i > 0 {
                assert(cs[i] == rest_c[i - 1]);
                assert(s[i] == rest_r[i - 1]);
            }
        }
    }
}

/// Law: when exactly the first wire block carries type id 0 — as a valid
/// FLAC stream requires — the classified walk yields exactly one
/// STREAMINFO record, standing first.
pub proof fn lemma_flac_one_stream_info(d: Seq<u8>, pos: int)
    requires
        0 <= pos <= d.len(),
        spec_walk_blocks(d, pos) is Ok,
        spec_walk_raw(d, pos) is Ok,
        ({
            let s = spec_walk_raw(d, pos)->Ok_0.0;
            s.len() > 0 && s[0].id == 0 && forall|i: int|
                1 <= i < s.len() ==> (#[trigger] s[i]).id != 0
        }),
    ensures
        ({
            let cs = spec_walk_blocks(d, pos)->Ok_0;
            cs.len() > 0 && cs[0] is StreamInfo && forall|i: int|
                1 <= i < cs.len() ==> !((#[trigger] cs[i]) is StreamInfo)
        }),
{
    lemma_flac_classification(d, pos);
}

} // verus!
