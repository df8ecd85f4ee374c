//! ID3 tags: the ID3v2 header and frame sequence (text, comment,
//! attached-picture and opaque frames, with four text encodings and a
//! synch-safe tag size), plus the optional legacy ID3v1 trailer in the
//! last 128 bytes of the buffer.

use vstd::prelude::*;
use vstd::slice::slice_to_vec;
use vstd::utf8::{decode_utf8, valid_utf8};

use crate::reader::{be_val, ByteReader};
use crate::text::{decode_utf16, find_first, lemma_find_first_is, string_from_utf8, utf16_units,
    valid_utf16};
use crate::DecodeError;

verus! {

/// True when the buffer begins with the ID3v2 signature `ID3`.
pub open spec fn id3_signature(d: Seq<u8>) -> bool {
    d.len() >= 3 && d[0] == 0x49u8 && d[1] == 0x44u8 && d[2] == 0x33u8
}

/// The 28-bit synch-safe value of four bytes: each contributes only its
/// low 7 bits, assembled big-endian.
pub open spec fn synchsafe(b: Seq<u8>) -> nat
    recommends
        b.len() == 4,
{
    ((b[0] & 0x7F) as nat) * 0x200000 + ((b[1] & 0x7F) as nat) * 0x4000 + ((b[2] & 0x7F) as nat)
        * 0x80 + ((b[3] & 0x7F) as nat)
}

/// `s` with its trailing zero bytes removed.
pub open spec fn strip_nul(s: Seq<u8>) -> Seq<u8>
    decreases s.len(),
{
    if s.len() == 0 || s.last() != 0u8 {
        s
    } else {
        strip_nul(s.drop_last())
    }
}

/// The cut point that `strip_nul` makes is the one after the last
/// non-zero byte.
pub proof fn lemma_strip_nul_is(s: Seq<u8>, j: int)
    requires
        0 <= j <= s.len(),
        forall|k: int| j <= k < s.len() ==> s[k] == 0u8,
        j > 0 ==> s[j - 1] != 0u8,
    ensures
        strip_nul(s) == s.subrange(0, j),
    decreases s.len(),
{
    if s.len() == 0 {
        assert(s.subrange(0, j) =~= s);
    } else if s.last() != 0u8 {
        assert(j == s.len());
        assert(s.subrange(0, j) =~= s);
    } else {
        assert(j < s.len());
        lemma_strip_nul_is(s.drop_last(), j);
        assert(s.drop_last().subrange(0, j) =~= s.subrange(0, j));
    }
}

/// The numeric year of the four-byte field: its value when the bytes are
/// ASCII digits, optionally after a leading `+`, and 0 otherwise.
pub open spec fn spec_year(b: Seq<u8>) -> nat
    recommends
        b.len() == 4,
{
    if b[0] == 0x2Bu8 {
        if 0x30 <= b[1] <= 0x39 && 0x30 <= b[2] <= 0x39 && 0x30 <= b[3] <= 0x39 {
            ((b[1] - 0x30) as nat) * 100 + ((b[2] - 0x30) as nat) * 10 + ((b[3] - 0x30) as nat)
        } else {
            0
        }
    } else if 0x30 <= b[0] <= 0x39 && 0x30 <= b[1] <= 0x39 && 0x30 <= b[2] <= 0x39 && 0x30 <= b[3]
        <= 0x39 {
        ((b[0] - 0x30) as nat) * 1000 + ((b[1] - 0x30) as nat) * 100 + ((b[2] - 0x30) as nat) * 10
            + ((b[3] - 0x30) as nat)
    } else {
        0
    }
}

/// Mathematical model of one raw ID3v2 frame.
pub ghost struct FrameView {
    pub id: Seq<u8>,
    pub flags1: u8,
    pub flags2: u8,
    pub encoding: u8,
    pub data: Seq<u8>,
}

/// Mathematical model of a decoded COMM frame.
pub ghost struct CommentTagView {
    pub language: Seq<char>,
    pub excerpt: Seq<char>,
    pub content: Seq<char>,
}

/// Mathematical model of a decoded APIC frame.
pub ghost struct ApicView {
    pub picture_type: u8,
    pub mime: Seq<char>,
    pub description: Seq<char>,
    pub data: Seq<u8>,
}

/// Mathematical model of a decoded ID3v1 trailer.
pub ghost struct V1TagView {
    pub title: Seq<char>,
    pub artist: Seq<char>,
    pub album: Seq<char>,
    pub year: nat,
    pub comment: Seq<char>,
    pub track: Option<u8>,
    pub genre: u8,
}

/// Mathematical model of one classified tag.
pub ghost enum Id3TagView {
    V1Tag(V1TagView),
    Text((Seq<char>, Seq<char>)),
    Comments(CommentTagView),
    AttachedPicture(ApicView),
    Raw(FrameView),
}

/// Mathematical model of a decoded ID3 buffer.
pub ghost struct Id3View {
    pub version: u8,
    pub revision: u8,
    pub flags: u8,
    pub frames_size: nat,
    pub tags: Seq<Id3TagView>,
}

/// A UTF-8 string read at `pos` up to a zero byte (consumed) or the end
/// of `d`: the string and the position after it. Mirrors the byte
/// cursor's nul-terminated read.
pub open spec fn spec_read_utf8_until_nul(d: Seq<u8>, pos: int) -> Result<
    (Seq<char>, int),
    DecodeError,
> {
    let rel = find_first(d.subrange(pos, d.len() as int), 0u8);
    let content = d.subrange(pos, pos + rel);
    if !valid_utf8(content) {
        Err(DecodeError::EncodingViolation { offset: pos as usize })
    } else {
        Ok(
            (
                decode_utf8(content),
                if pos + rel < d.len() {
                    pos + rel + 1
                } else {
                    pos + rel
                },
            ),
        )
    }
}

/// A UTF-16 string read at `pos` up to a zero code unit (consumed) or the
/// end of `d`: the string and the position after it. Mirrors the byte
/// cursor's nul-pair-terminated read.
pub open spec fn spec_read_utf16_until_nul(d: Seq<u8>, pos: int, little_endian: bool) -> Result<
    (Seq<char>, int),
    DecodeError,
> {
    let units_all = utf16_units(d.subrange(pos, d.len() as int), little_endian);
    let rel = find_first(units_all, 0u16);
    let content = units_all.subrange(0, rel);
    if !valid_utf16(content) {
        Err(DecodeError::EncodingViolation { offset: pos as usize })
    } else {
        Ok(
            (
                decode_utf16(content),
                if rel < units_all.len() {
                    pos + 2 * rel + 2
                } else {
                    d.len() as int
                },
            ),
        )
    }
}

/// True when the id names a text-information frame: it starts with `T`
/// but is not the user-defined `TXXX`.
pub open spec fn is_text_id(id: Seq<u8>) -> bool {
    id.len() == 4 && id[0] == 0x54u8 && !(id[1] == 0x58u8 && id[2] == 0x58u8 && id[3] == 0x58u8)
}

/// True when the id is `COMM`.
pub open spec fn is_comm_id(id: Seq<u8>) -> bool {
    id.len() == 4 && id[0] == 0x43u8 && id[1] == 0x4Fu8 && id[2] == 0x4Du8 && id[3] == 0x4Du8
}

/// True when the id is `APIC`.
pub open spec fn is_apic_id(id: Seq<u8>) -> bool {
    id.len() == 4 && id[0] == 0x41u8 && id[1] == 0x50u8 && id[2] == 0x49u8 && id[3] == 0x43u8
}

/// The decoded id and text of a text-information frame. The payload is
/// read per the frame's encoding byte: 0 and 3 as a nul-terminated UTF-8
/// run, 1 and 2 as a fixed-length UTF-16 run over the whole payload
/// (little- and big-endian respectively); any other byte is an encoding
/// violation.
pub open spec fn spec_decode_text(f: FrameView) -> Result<(Seq<char>, Seq<char>), DecodeError> {
    if !valid_utf8(f.id) {
        Err(DecodeError::EncodingViolation { offset: 0 })
    } else if f.encoding == 0 || f.encoding == 3 {
        match spec_read_utf8_until_nul(f.data, 0) {
            Err(e) => Err(e),
            Ok((text, _)) => Ok((decode_utf8(f.id), text)),
        }
    } else if f.encoding == 1 || f.encoding == 2 {
        let le = f.encoding == 1;
        if f.data.len() % 2 != 0 || !valid_utf16(utf16_units(f.data, le)) {
            Err(DecodeError::EncodingViolation { offset: 0 })
        } else {
            Ok((decode_utf8(f.id), decode_utf16(utf16_units(f.data, le))))
        }
    } else {
        Err(DecodeError::EncodingViolation { offset: 0 })
    }
}

/// The decoded fields of a COMM frame: a 3-byte language code, then a
/// short description and the long text, each read per the encoding byte
/// as a nul-terminated variable-length string.
pub open spec fn spec_decode_comment_frame(f: FrameView) -> Result<CommentTagView, DecodeError> {
    let d = f.data;
    if 3 > d.len() {
        Err(DecodeError::BoundsViolation { offset: 0 })
    } else if !valid_utf8(d.subrange(0, 3)) {
        Err(DecodeError::EncodingViolation { offset: 0 })
    } else {
        let language = decode_utf8(d.subrange(0, 3));
        if f.encoding == 0 || f.encoding == 3 {
            match spec_read_utf8_until_nul(d, 3) {
                Err(e) => Err(e),
                Ok((excerpt, p1)) => match spec_read_utf8_until_nul(d, p1) {
                    Err(e) => Err(e),
                    Ok((content, _)) => Ok(CommentTagView { language, excerpt, content }),
                },
            }
        } else if f.encoding == 1 || f.encoding == 2 {
            let le = f.encoding == 1;
            match spec_read_utf16_until_nul(d, 3, le) {
                Err(e) => Err(e),
                Ok((excerpt, p1)) => match spec_read_utf16_until_nul(d, p1, le) {
                    Err(e) => Err(e),
                    Ok((content, _)) => Ok(CommentTagView { language, excerpt, content }),
                },
            }
        } else {
            Err(DecodeError::EncodingViolation { offset: 3 })
        }
    }
}

/// The decoded fields of an APIC frame: a nul-terminated MIME string, a
/// picture-type byte, a nul-terminated description, then the remaining
/// bytes as the image payload (both strings are 8-bit reads here).
pub open spec fn spec_decode_apic(f: FrameView) -> Result<ApicView, DecodeError> {
    let d = f.data;
    match spec_read_utf8_until_nul(d, 0) {
        Err(e) => Err(e),
        Ok((mime, p1)) => {
            if p1 + 1 > d.len() {
                Err(DecodeError::BoundsViolation { offset: p1 as usize })
            } else {
                match spec_read_utf8_until_nul(d, p1 + 1) {
                    Err(e) => Err(e),
                    Ok((description, p2)) => Ok(
                        ApicView {
                            picture_type: d[p1],
                            mime,
                            description,
                            data: d.subrange(p2, d.len() as int),
                        },
                    ),
                }
            }
        },
    }
}

/// One raw frame at `pos`: a 4-byte id, a 32-bit big-endian size field
/// from which one byte is subtracted (the encoding byte is counted
/// separately in this size accounting), two flag bytes, the encoding
/// byte, then the payload. A size field of zero cannot account for its
/// own encoding byte and is a structural violation.
pub open spec fn spec_parse_frame(d: Seq<u8>, pos: int) -> Result<(FrameView, int), DecodeError> {
    if pos + 4 > d.len() {
        Err(DecodeError::BoundsViolation { offset: pos as usize })
    } else if pos + 8 > d.len() {
        Err(DecodeError::BoundsViolation { offset: (pos + 4) as usize })
    } else {
        let size_field = be_val(d.subrange(pos + 4, pos + 8)) as int;
        if size_field == 0 {
            Err(DecodeError::StructuralViolation { offset: (pos + 4) as usize })
        } else if pos + 9 > d.len() {
            Err(DecodeError::BoundsViolation { offset: (pos + 8) as usize })
        } else if pos + 10 > d.len() {
            Err(DecodeError::BoundsViolation { offset: (pos + 9) as usize })
        } else if pos + 11 > d.len() {
            Err(DecodeError::BoundsViolation { offset: (pos + 10) as usize })
        } else {
            let size = size_field - 1;
            if pos + 11 + size > d.len() {
                Err(DecodeError::BoundsViolation { offset: (pos + 11) as usize })
            } else {
                Ok(
                    (
                        FrameView {
                            id: d.subrange(pos, pos + 4),
                            flags1: d[pos + 8],
                            flags2: d[pos + 9],
                            encoding: d[pos + 10],
                            data: d.subrange(pos + 11, pos + 11 + size),
                        },
                        pos + 11 + size,
                    ),
                )
            }
        }
    }
}

/// One raw ID3v2 frame: 4-byte id, payload size (the size field minus the
/// separately-counted encoding byte), two flag bytes, the encoding byte,
/// and the payload.
pub struct Frame {
    pub id: Vec<u8>,
    pub size: usize,
    pub flags: (u8, u8),
    pub encoding: u8,
    pub data: Vec<u8>,
}

impl View for Frame {
    type V = FrameView;

    open spec fn view(&self) -> FrameView {
        FrameView {
            id: self.id@,
            flags1: self.flags.0,
            flags2: self.flags.1,
            encoding: self.encoding,
            data: self.data@,
        }
    }
}

impl Frame {
    /// Reads one frame at the cursor's position.
    pub fn new(reader: &mut ByteReader) -> (r: Result<Frame, DecodeError>)
        requires
            old(reader).wf(),
        ensures
            final(reader).wf(),
            final(reader).data() == old(reader).data(),
            match spec_parse_frame(old(reader).data(), old(reader).pos()) {
                Ok((fv, p2)) => r matches Ok(f) && f@ == fv && f.size == fv.data.len()
                    && final(reader).pos() == p2,
                Err(e) => r == Err::<Frame, DecodeError>(e),
            },
    {
        let id = match reader.read_vec(4) {
            Ok(v) => v,
            Err(e) => { return Err(e) },
        };
        let size_field = match reader.read_u32(true) {
            Ok(v) => v,
            Err(e) => { return Err(e) },
        };
        if size_field == 0 {
            let off = reader.offset();
            return Err(DecodeError::StructuralViolation { offset: off - 4 });
        }
        let flags1 = match reader.read_u8() {
            Ok(v) => v,
            Err(e) => { return Err(e) },
        };
        let flags2 = match reader.read_u8() {
            Ok(v) => v,
            Err(e) => { return Err(e) },
        };
        let encoding = match reader.read_u8() {
            Ok(v) => v,
            Err(e) => { return Err(e) },
        };
        let size = (size_field - 1) as usize;
        let data = match reader.read_vec(size) {
            Ok(v) => v,
            Err(e) => { return Err(e) },
        };
        proof {
            let d = old(reader).data();
            let pos = old(reader).pos();
            assert(d.subrange(pos + 11, pos + 11 + size).len() == size);
        }
        Ok(Frame { id, size, flags: (flags1, flags2), encoding, data })
    }
}

/// A decoded text-information frame: the frame id and its text.
pub struct Text(pub (String, String));

impl View for Text {
    type V = (Seq<char>, Seq<char>);

    open spec fn view(&self) -> (Seq<char>, Seq<char>) {
        (self.0.0@, self.0.1@)
    }
}

impl Text {
    /// Decodes a text-information frame's id and payload.
    pub fn new(frame: Frame) -> (r: Result<Text, DecodeError>)
        ensures
            match spec_decode_text(frame@) {
                Ok(tv) => r matches Ok(t) && t@ == tv,
                Err(e) => r == Err::<Text, DecodeError>(e),
            },
    {
        let ghost fv = frame@;
        let Frame { id, size: _, flags: _, encoding, data } = frame;
        let key = match string_from_utf8(id) {
            Some(s) => s,
            None => { return Err(DecodeError::EncodingViolation { offset: 0 }) },
        };
        let mut reader = ByteReader::new(data.as_slice());
        let text = if encoding == 0 || encoding == 3 {
            match reader.read_utf8_until_nul() {
                Ok(t) => t,
                Err(e) => { return Err(e) },
            }
        } else if encoding == 1 || encoding == 2 {
            let n = data.len();
            proof {
                assert(fv.data.subrange(0, fv.data.len() as int) =~= fv.data);
            }
            match reader.read_utf16_fixed(n, encoding == 1) {
                Ok(t) => t,
                Err(e) => { return Err(e) },
            }
        } else {
            return Err(DecodeError::EncodingViolation { offset: 0 });
        };
        Ok(Text((key, text)))
    }

    /// True when the frame's id names a text-information frame.
    pub fn is_text_information(frame: &Frame) -> (r: bool)
        ensures
            r == is_text_id(frame@.id),
    {
        frame.id.len() == 4 && frame.id[0] == 0x54 && !(frame.id[1] == 0x58 && frame.id[2] == 0x58
            && frame.id[3] == 0x58)
    }
}

/// A decoded COMM frame: language code, short description and long text.
pub struct Comments {
    pub language: String,
    pub excerpt: String,
    pub content: String,
}

impl View for Comments {
    type V = CommentTagView;

    open spec fn view(&self) -> CommentTagView {
        CommentTagView {
            language: self.language@,
            excerpt: self.excerpt@,
            content: self.content@,
        }
    }
}

impl Comments {
    /// Decodes a COMM frame's payload.
    pub fn new(frame: Frame) -> (r: Result<Comments, DecodeError>)
        ensures
            match spec_decode_comment_frame(frame@) {
                Ok(cv) => r matches Ok(c) && c@ == cv,
                Err(e) => r == Err::<Comments, DecodeError>(e),
            },
    {
        let mut reader = ByteReader::new(frame.data.as_slice());
        let language = match reader.read_utf8_fixed(3) {
            Ok(s) => s,
            Err(e) => { return Err(e) },
        };
        if frame.encoding == 0 || frame.encoding == 3 {
            let excerpt = match reader.read_utf8_until_nul() {
                Ok(s) => s,
                Err(e) => { return Err(e) },
            };
            let content = match reader.read_utf8_until_nul() {
                Ok(s) => s,
                Err(e) => { return Err(e) },
            };
            Ok(Comments { language, excerpt, content })
        } else if frame.encoding == 1 || frame.encoding == 2 {
            let le = frame.encoding == 1;
            let excerpt = match reader.read_utf16_until_nul_pair(le) {
                Ok(s) => s,
                Err(e) => { return Err(e) },
            };
            let content = match reader.read_utf16_until_nul_pair(le) {
                Ok(s) => s,
                Err(e) => { return Err(e) },
            };
            Ok(Comments { language, excerpt, content })
        } else {
            Err(DecodeError::EncodingViolation { offset: 3 })
        }
    }

    /// True when the frame's id is `COMM`.
    pub fn is_comments(frame: &Frame) -> (r: bool)
        ensures
            r == is_comm_id(frame@.id),
    {
        frame.id.len() == 4 && frame.id[0] == 0x43 && frame.id[1] == 0x4F && frame.id[2] == 0x4D
            && frame.id[3] == 0x4D
    }
}

/// A decoded APIC frame: picture type, MIME string, description and raw
/// image bytes.
pub struct AttachedPicture {
    pub picture_type: u8,
    mime: String,
    description: String,
    data: Vec<u8>,
}

impl View for AttachedPicture {
    type V = ApicView;

    closed spec fn view(&self) -> ApicView {
        ApicView {
            picture_type: self.picture_type,
            mime: self.mime@,
            description: self.description@,
            data: self.data@,
        }
    }
}

impl AttachedPicture {
    /// Decodes an APIC frame's payload.
    pub fn new(frame: Frame) -> (r: Result<AttachedPicture, DecodeError>)
        ensures
            match spec_decode_apic(frame@) {
                Ok(av) => r matches Ok(a) && a@ == av,
                Err(e) => r == Err::<AttachedPicture, DecodeError>(e),
            },
    {
        let mut reader = ByteReader::new(frame.data.as_slice());
        let mime = match reader.read_utf8_until_nul() {
            Ok(s) => s,
            Err(e) => { return Err(e) },
        };
        let picture_type = match reader.read_u8() {
            Ok(v) => v,
            Err(e) => { return Err(e) },
        };
        let description = match reader.read_utf8_until_nul() {
            Ok(s) => s,
            Err(e) => { return Err(e) },
        };
        let data = reader.read_remaining();
        Ok(AttachedPicture { picture_type, mime, description, data })
    }

    /// True when the frame's id is `APIC`.
    pub fn is_attached_picture(frame: &Frame) -> (r: bool)
        ensures
            r == is_apic_id(frame@.id),
    {
        frame.id.len() == 4 && frame.id[0] == 0x41 && frame.id[1] == 0x50 && frame.id[2] == 0x49
            && frame.id[3] == 0x43
    }

    /// The MIME type string.
    pub fn mime(&self) -> (r: &str)
        ensures
            r@ == self@.mime,
    {
        self.mime.as_str()
    }

    /// The description string.
    pub fn description(&self) -> (r: &str)
        ensures
            r@ == self@.description,
    {
        self.description.as_str()
    }

    /// The raw image bytes.
    pub fn data(&self) -> (r: &[u8])
        ensures
            r@ == self@.data,
    {
        self.data.as_slice()
    }
}

/// A decoded ID3v1 trailer.
pub struct V1Tag {
    pub title: String,
    pub artist: String,
    pub album: String,
    pub year: u32,
    pub comment: String,
    pub track: Option<u8>,
    pub genre: u8,
}

impl View for V1Tag {
    type V = V1TagView;

    open spec fn view(&self) -> V1TagView {
        V1TagView {
            title: self.title@,
            artist: self.artist@,
            album: self.album@,
            year: self.year as nat,
            comment: self.comment@,
            track: self.track,
            genre: self.genre,
        }
    }
}

/// Classifies one raw frame by its id: text-information frames, `COMM`
/// and `APIC` are decoded; every other id passes through as an opaque
/// raw frame.
pub open spec fn spec_classify_frame(fv: FrameView) -> Result<Id3TagView, DecodeError> {
    if is_text_id(fv.id) {
        match spec_decode_text(fv) {
            Ok(t) => Ok(Id3TagView::Text(t)),
            Err(e) => Err(e),
        }
    } else if is_comm_id(fv.id) {
        match spec_decode_comment_frame(fv) {
            Ok(c) => Ok(Id3TagView::Comments(c)),
            Err(e) => Err(e),
        }
    } else if is_apic_id(fv.id) {
        match spec_decode_apic(fv) {
            Ok(a) => Ok(Id3TagView::AttachedPicture(a)),
            Err(e) => Err(e),
        }
    } else {
        Ok(Id3TagView::Raw(fv))
    }
}

/// True when four zero bytes stand at `pos`: the start of the padding
/// that ends the frame sequence.
pub open spec fn is_padding(d: Seq<u8>, pos: int) -> bool {
    pos + 4 <= d.len() && d[pos] == 0u8 && d[pos + 1] == 0u8 && d[pos + 2] == 0u8 && d[pos + 3]
        == 0u8
}

/// The classified frame sequence from `pos`. `parsed` tracks the bytes
/// accounted to the frame area so far (ten header bytes plus the payload
/// size per frame); the walk stops at padding, at the end of the buffer,
/// or once the declared frame-area size is consumed, and a frame that
/// would cross the declared frame-area boundary is a structural
/// violation. Returns the tags, the position after the walk, and the
/// final tracked byte count.
pub open spec fn spec_walk_frames(d: Seq<u8>, pos: int, frames_size: int, parsed: int) -> Result<
    (Seq<Id3TagView>, int, int),
    DecodeError,
>
    decreases frames_size - parsed,
    when 0 <= pos <= d.len() && 0 <= parsed <= frames_size
{
    if parsed >= frames_size || pos == d.len() || is_padding(d, pos) {
        Ok((seq![], pos, parsed))
    } else {
        match spec_parse_frame(d, pos) {
            Err(e) => Err(e),
            Ok((fv, p2)) => {
                let size = fv.data.len() as int;
                if parsed + 10 + size > frames_size {
                    Err(DecodeError::StructuralViolation { offset: pos as usize })
                } else {
                    match spec_classify_frame(fv) {
                        Err(e) => Err(e),
                        Ok(tv) => match spec_walk_frames(d, p2, frames_size, parsed + 10 + size) {
                            Err(e) => Err(e),
                            Ok((rest, pe, pde)) => Ok((seq![tv] + rest, pe, pde)),
                        },
                    }
                }
            },
        }
    }
}

/// The optional ID3v1 trailer in the last 128 bytes: present when they
/// begin with `TAG` and the title's first byte is non-zero. The comment
/// field is 28 bytes with a track number when the byte at buffer length
/// minus three is zero, and the full 30 bytes with no track number
/// otherwise.
pub open spec fn spec_parse_v1(d: Seq<u8>) -> Result<Option<V1TagView>, DecodeError> {
    if d.len() < 128 {
        Ok(None)
    } else {
        let t = d.len() - 128;
        if !(d[t] == 0x54u8 && d[t + 1] == 0x41u8 && d[t + 2] == 0x47u8) || d[t + 3] == 0u8 {
            Ok(None)
        } else {
            let title_b = strip_nul(d.subrange(t + 3, t + 33));
            let artist_b = strip_nul(d.subrange(t + 33, t + 63));
            let album_b = strip_nul(d.subrange(t + 63, t + 93));
            if !valid_utf8(title_b) {
                Err(DecodeError::EncodingViolation { offset: (t + 3) as usize })
            } else if !valid_utf8(artist_b) {
                Err(DecodeError::EncodingViolation { offset: (t + 33) as usize })
            } else if !valid_utf8(album_b) {
                Err(DecodeError::EncodingViolation { offset: (t + 63) as usize })
            } else {
                let reserved = d[t + 125] == 0u8;
                let comment_b = if reserved {
                    strip_nul(d.subrange(t + 97, t + 125))
                } else {
                    strip_nul(d.subrange(t + 97, t + 127))
                };
                if !valid_utf8(comment_b) {
                    Err(DecodeError::EncodingViolation { offset: (t + 97) as usize })
                } else {
                    Ok(
                        Some(
                            V1TagView {
                                title: decode_utf8(title_b),
                                artist: decode_utf8(artist_b),
                                album: decode_utf8(album_b),
                                year: spec_year(d.subrange(t + 93, t + 97)),
                                comment: decode_utf8(comment_b),
                                track: if reserved {
                                    Some(d[t + 126])
                                } else {
                                    None
                                },
                                genre: d[t + 127],
                            },
                        ),
                    )
                }
            }
        }
    }
}

/// A whole ID3 buffer: the `ID3` signature; version, revision and flag
/// bytes; the synch-safe frame-area size; an optional extended header
/// (skipped); the frame sequence; then the optional ID3v1 trailer.
pub open spec fn spec_parse_id3(d: Seq<u8>) -> Result<Id3View, DecodeError> {
    if !id3_signature(d) {
        Err(DecodeError::SignatureMismatch { offset: 0 })
    } else if d.len() < 4 {
        Err(DecodeError::BoundsViolation { offset: 3 })
    } else if d.len() < 5 {
        Err(DecodeError::BoundsViolation { offset: 4 })
    } else if d.len() < 6 {
        Err(DecodeError::BoundsViolation { offset: 5 })
    } else if d.len() < 10 {
        Err(DecodeError::BoundsViolation { offset: 6 })
    } else {
        let flags = d[5];
        let fs = synchsafe(d.subrange(6, 10)) as int;
        if flags & 0x40 != 0 && d.len() < 14 {
            Err(DecodeError::BoundsViolation { offset: 10 })
        } else if flags & 0x40 != 0 && 14 + be_val(d.subrange(10, 14)) > d.len() {
            Err(DecodeError::BoundsViolation { offset: 14 })
        } else {
            let p0 = if flags & 0x40 != 0 {
                14 + be_val(d.subrange(10, 14)) as int
            } else {
                10
            };
            match spec_walk_frames(d, p0, fs, 0) {
                Err(e) => Err(e),
                Ok((tags, _, _)) => match spec_parse_v1(d) {
                    Err(e) => Err(e),
                    Ok(None) => Ok(
                        Id3View {
                            version: d[3],
                            revision: d[4],
                            flags,
                            frames_size: fs as nat,
                            tags,
                        },
                    ),
                    Ok(Some(v1)) => Ok(
                        Id3View {
                            version: d[3],
                            revision: d[4],
                            flags,
                            frames_size: fs as nat,
                            tags: tags.push(Id3TagView::V1Tag(v1)),
                        },
                    ),
                },
            }
        }
    }
}

/// One classified ID3 tag.
pub enum ID3ParsedTag {
    V1Tag(V1Tag),
    Text((String, String)),
    Comments(Comments),
    AttachedPicture(AttachedPicture),
    Raw(Frame),
}

impl View for ID3ParsedTag {
    type V = Id3TagView;

    open spec fn view(&self) -> Id3TagView {
        match self {
            ID3ParsedTag::V1Tag(v) => Id3TagView::V1Tag(v@),
            ID3ParsedTag::Text(t) => Id3TagView::Text((t.0@, t.1@)),
            ID3ParsedTag::Comments(c) => Id3TagView::Comments(c@),
            ID3ParsedTag::AttachedPicture(a) => Id3TagView::AttachedPicture(a@),
            ID3ParsedTag::Raw(f) => Id3TagView::Raw(f@),
        }
    }
}

/// Decodes one raw frame into its classified form.
fn classify_frame(frame: Frame) -> (r: Result<ID3ParsedTag, DecodeError>)
    ensures
        match spec_classify_frame(frame@) {
            Ok(tv) => r matches Ok(pt) && pt@ == tv,
            Err(e) => r == Err::<ID3ParsedTag, DecodeError>(e),
        },
{
    if Text::is_text_information(&frame) {
        match Text::new(frame) {
            Ok(t) => Ok(ID3ParsedTag::Text(t.0)),
            Err(e) => Err(e),
        }
    } else if Comments::is_comments(&frame) {
        match Comments::new(frame) {
            Ok(c) => Ok(ID3ParsedTag::Comments(c)),
            Err(e) => Err(e),
        }
    } else if AttachedPicture::is_attached_picture(&frame) {
        match AttachedPicture::new(frame) {
            Ok(a) => Ok(ID3ParsedTag::AttachedPicture(a)),
            Err(e) => Err(e),
        }
    } else {
        Ok(ID3ParsedTag::Raw(frame))
    }
}

/// Reads one fixed-width ID3v1 text field: the trailing zero padding is
/// stripped and the rest decoded as UTF-8.
fn v1_string(bytes: &[u8], start: usize, width: usize) -> (r: Result<String, DecodeError>)
    requires
        start + width <= bytes@.len(),
    ensures
        ({
            let sb = strip_nul(bytes@.subrange(start as int, (start + width) as int));
            if !valid_utf8(sb) {
                r == Err::<String, DecodeError>(DecodeError::EncodingViolation { offset: start })
            } else {
                r matches Ok(s) && s@ == decode_utf8(sb)
            }
        }),
{
    proof {
        vstd::slice::axiom_spec_len(bytes);
    }
    let ghost field = bytes@.subrange(start as int, (start + width) as int);
    let mut j: usize = start + width;
    while j > start && bytes[j - 1] == 0
        invariant
            start <= j <= start + width,
            start + width <= bytes@.len(),
            field == bytes@.subrange(start as int, (start + width) as int),
            forall|k: int| j - start <= k < width ==> field[k] == 0u8,
        decreases j,
    {
        j = j - 1;
    }
    proof {
        lemma_strip_nul_is(field, j - start);
        assert(field.subrange(0, j - start) =~= bytes@.subrange(start as int, j as int));
    }
    let sl = slice_to_vec(&bytes[start..j]);
    match string_from_utf8(sl) {
        Some(s) => Ok(s),
        None => Err(DecodeError::EncodingViolation { offset: start }),
    }
}

/// Parses the four-byte ID3v1 year field: ASCII digits, optionally after
/// a leading `+`, give the year; anything else gives 0.
fn v1_year(bytes: &[u8], start: usize) -> (r: u32)
    requires
        start + 4 <= bytes@.len(),
    ensures
        r as nat == spec_year(bytes@.subrange(start as int, start + 4)),
{
    let b0 = bytes[start];
    let b1 = bytes[start + 1];
    let b2 = bytes[start + 2];
    let b3 = bytes[start + 3];
    proof {
        let sub = bytes@.subrange(start as int, start + 4);
        assert(sub[0] == b0 && sub[1] == b1 && sub[2] == b2 && sub[3] == b3);
    }
    if b0 == 0x2B {
        if 0x30 <= b1 && b1 <= 0x39 && 0x30 <= b2 && b2 <= 0x39 && 0x30 <= b3 && b3 <= 0x39 {
            ((b1 - 0x30) as u32) * 100 + ((b2 - 0x30) as u32) * 10 + ((b3 - 0x30) as u32)
        } else {
            0
        }
    } else if 0x30 <= b0 && b0 <= 0x39 && 0x30 <= b1 && b1 <= 0x39 && 0x30 <= b2 && b2 <= 0x39
        && 0x30 <= b3 && b3 <= 0x39 {
        ((b0 - 0x30) as u32) * 1000 + ((b1 - 0x30) as u32) * 100 + ((b2 - 0x30) as u32) * 10 + ((b3
            - 0x30) as u32)
    } else {
        0
    }
}

/// Joins already-classified tags with the outcome of walking the
/// remaining frames.
pub open spec fn frames_join(
    prefix: Seq<Id3TagView>,
    rest: Result<(Seq<Id3TagView>, int, int), DecodeError>,
) -> Result<(Seq<Id3TagView>, int, int), DecodeError> {
    match rest {
        Ok((s, p, c)) => Ok((prefix + s, p, c)),
        Err(e) => Err(e),
    }
}

/// A decoded ID3 buffer: the header fields and the ordered tag list
/// (ID3v2 frames in order, then the ID3v1 trailer when present).
pub struct ID3 {
    pub version: u8,
    pub revision: u8,
    pub flags: u8,
    pub frames_size: usize,
    tags: Vec<ID3ParsedTag>,
}

impl View for ID3 {
    type V = Id3View;

    closed spec fn view(&self) -> Id3View {
        Id3View {
            version: self.version,
            revision: self.revision,
            flags: self.flags,
            frames_size: self.frames_size as nat,
            tags: self.tags@.map_values(|t: ID3ParsedTag| t@),
        }
    }
}

impl ID3 {
    /// True when the buffer begins with the ID3v2 signature.
    pub fn is_format(bytes: &[u8]) -> (r: bool)
        ensures
            r == id3_signature(bytes@),
    {
        bytes.len() >= 3 && bytes[0] == 0x49 && bytes[1] == 0x44 && bytes[2] == 0x33
    }

    /// Decodes the ID3v2 frames and the optional ID3v1 trailer of a
    /// buffer.
    #[verifier::loop_isolation(false)]
    pub fn from_bytes(bytes: &[u8]) -> (r: Result<ID3, DecodeError>)
        ensures
            match spec_parse_id3(bytes@) {
                Ok(v) => r matches Ok(t) && t@ == v,
                Err(e) => r == Err::<ID3, DecodeError>(e),
            },
    {
        if !ID3::is_format(bytes) {
            return Err(DecodeError::SignatureMismatch { offset: 0 });
        }
        let ghost d = bytes@;
        let mut reader = match ByteReader::with_offset(bytes, 3) {
            Ok(r) => r,
            Err(_) => {
                proof {
                    assert(false);
                }
                return Err(DecodeError::SignatureMismatch { offset: 0 });
            },
        };
        let version = match reader.read_u8() {
            Ok(v) => v,
            Err(e) => { return Err(e) },
        };
        let revision = match reader.read_u8() {
            Ok(v) => v,
            Err(e) => { return Err(e) },
        };
        let flags = match reader.read_u8() {
            Ok(v) => v,
            Err(e) => { return Err(e) },
        };
        let sb = match reader.read_vec(4) {
            Ok(v) => v,
            Err(e) => { return Err(e) },
        };
        let frames_size: usize = ((sb[0] & 0x7F) as usize) * 0x200000 + ((sb[1] & 0x7F) as usize)
            * 0x4000 + ((sb[2] & 0x7F) as usize) * 0x80 + ((sb[3] & 0x7F) as usize);
        proof {
            assert(sb@[0] == d.subrange(6, 10)[0] && sb@[1] == d.subrange(6, 10)[1] && sb@[2]
                == d.subrange(6, 10)[2] && sb@[3] == d.subrange(6, 10)[3]);
            assert(frames_size == synchsafe(d.subrange(6, 10)));
        }
        if flags & 0x40 != 0 {
            let ehs = match reader.read_u32(true) {
                Ok(v) => v,
                Err(e) => { return Err(e) },
            };
            match reader.skip(ehs as usize) {
                Ok(_) => (),
                Err(e) => { return Err(e) },
            }
        }
        let ghost p0 = reader.pos();
        let ghost target = spec_walk_frames(d, p0, frames_size as int, 0);
        let mut tags: Vec<ID3ParsedTag> = Vec::new();
        let mut parsed: usize = 0;
        let mut done = false;
        proof {
            if target is Ok {
                assert(Seq::<Id3TagView>::empty() + target->Ok_0.0 =~= target->Ok_0.0);
            }
        }
        while !done
            invariant
                reader.wf(),
                reader.data() == d,
                0 <= parsed <= frames_size,
                !done ==> target == frames_join(
                    tags@.map_values(|t: ID3ParsedTag| t@),
                    spec_walk_frames(d, reader.pos(), frames_size as int, parsed as int),
                ),
                done ==> (target matches Ok(t) && t.0 == tags@.map_values(
                    |t: ID3ParsedTag| t@,
                )),
            decreases frames_size - parsed + (if done {
                0int
            } else {
                1int
            }),
        {
            let at_end = reader.is_end();
            let padding = if !at_end && reader.remaining_len() >= 4 {
                match reader.peek(4) {
                    Ok(p4) => p4[0] == 0 && p4[1] == 0 && p4[2] == 0 && p4[3] == 0,
                    Err(_) => false,
                }
            } else {
                false
            };
            proof {
                assert(padding == is_padding(d, reader.pos()));
            }
            if parsed >= frames_size || at_end || padding {
                done = true;
            } else {
                let ghost p_cur = reader.pos();
                let ghost built = tags@.map_values(|t: ID3ParsedTag| t@);
                let p_start = reader.offset();
                let frame = match Frame::new(&mut reader) {
                    Ok(f) => f,
                    Err(e) => { return Err(e) },
                };
                let size = frame.size;
                if size > frames_size || parsed + 10 > frames_size - size {
                    return Err(DecodeError::StructuralViolation { offset: p_start });
                }
                let ghost fv = frame@;
                let ghost p2 = reader.pos();
                let pt = match classify_frame(frame) {
                    Ok(t) => t,
                    Err(e) => { return Err(e) },
                };
                let ghost tv = pt@;
                tags.push(pt);
                parsed = parsed + 10 + size;
                proof {
                    assert(tags@.map_values(|t: ID3ParsedTag| t@) =~= built.push(tv));
                    let rest = spec_walk_frames(d, p2, frames_size as int, parsed as int);
                    if rest is Ok {
                        assert(built + (seq![tv] + rest->Ok_0.0) =~= built.push(tv)
                            + rest->Ok_0.0);
                    }
                }
            }
        }
        let n = bytes.len();
        if n >= 128 {
            let t = n - 128;
            if bytes[t] == 0x54 && bytes[t + 1] == 0x41 && bytes[t + 2] == 0x47 && bytes[t + 3]
                != 0 {
                let ghost built = tags@.map_values(|t: ID3ParsedTag| t@);
                let title = match v1_string(bytes, t + 3, 30) {
                    Ok(s) => s,
                    Err(e) => { return Err(e) },
                };
                let artist = match v1_string(bytes, t + 33, 30) {
                    Ok(s) => s,
                    Err(e) => { return Err(e) },
                };
                let album = match v1_string(bytes, t + 63, 30) {
                    Ok(s) => s,
                    Err(e) => { return Err(e) },
                };
                let year = v1_year(bytes, t + 93);
                let reserved = bytes[n - 3] == 0;
                let comment = if reserved {
                    match v1_string(bytes, t + 97, 28) {
                        Ok(s) => s,
                        Err(e) => { return Err(e) },
                    }
                } else {
                    match v1_string(bytes, t + 97, 30) {
                        Ok(s) => s,
                        Err(e) => { return Err(e) },
                    }
                };
                let track = if reserved {
                    Some(bytes[t + 126])
                } else {
                    None
                };
                let genre = bytes[t + 127];
                let v1 = V1Tag { title, artist, album, year, comment, track, genre };
                let ghost v1v = v1@;
                tags.push(ID3ParsedTag::V1Tag(v1));
                proof {
                    assert(spec_parse_v1(d) == Ok::<Option<V1TagView>, DecodeError>(Some(v1v)));
                    assert(tags@.map_values(|t: ID3ParsedTag| t@) =~= built.push(
                        Id3TagView::V1Tag(v1v),
                    ));
                }
            }
        }
        Ok(ID3 { version, revision, flags, frames_size, tags })
    }

    /// The ordered list of classified tags.
    pub fn tags(&self) -> (r: &Vec<ID3ParsedTag>)
        ensures
            r@.len() == self@.tags.len(),
            forall|i: int| 0 <= i < r@.len() ==> #[trigger] r@[i]@ == self@.tags[i],
    {
        &self.tags
    }
}

/// Law: over any successful frame walk, the tracked byte count only
/// grows and never exceeds the declared synch-safe frame-area size.
pub proof fn lemma_id3_frame_area_bound(d: Seq<u8>, pos: int, frames_size: int, parsed: int)
    requires
        0 <= pos <= d.len(),
        0 <= parsed <= frames_size,
        spec_walk_frames(d, pos, frames_size, parsed) is Ok,
    ensures
        ({
            let (tags, pe, pde) = spec_walk_frames(d, pos, frames_size, parsed)->Ok_0;
            parsed <= pde <= frames_size
        }),
    decreases frames_size - parsed,
{
    if parsed >= frames_size || pos == d.len() || is_padding(d, pos) {
    } else {
        let (fv, p2) = spec_parse_frame(d, pos)->Ok_0;
        let size = fv.data.len() as int;
        lemma_id3_frame_area_bound(d, p2, frames_size, parsed + 10 + size);
    }
}

/// Law: a frame whose id does not name a text-information, `COMM` or
/// `APIC` frame is preserved by classification as an opaque raw frame,
/// unchanged.
pub proof fn lemma_id3_raw_preserved(fv: FrameView)
    requires
        !is_text_id(fv.id),
        !is_comm_id(fv.id),
        !is_apic_id(fv.id),
    ensures
        spec_classify_frame(fv) == Ok::<Id3TagView, DecodeError>(Id3TagView::Raw(fv)),
{
}

} // verus!
