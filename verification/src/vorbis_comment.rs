//! The Vorbis comment block: a vendor string plus an ordered key=value
//! comment list, shared verbatim by the FLAC and OGG containers. All
//! lengths are 32-bit little-endian; all text is UTF-8; a comment string
//! must contain an `=` separating key from value.

use vstd::prelude::*;
use vstd::utf8::{decode_utf8, encode_utf8, valid_utf8};

use crate::reader::{le_bytes, le_val, lemma_le_bytes_val, pow256, push_le32, ByteReader};
use crate::text::{find_first, lemma_find_first_is, string_from_utf8};
use crate::DecodeError;

verus! {

/// Mathematical model of a decoded Vorbis comment block.
pub ghost struct VorbisCommentView {
    pub vendor: Seq<char>,
    pub comments: Seq<(Seq<char>, Seq<char>)>,
}

/// One `length ++ key=value` comment starting at `pos`: the decoded pair
/// and the position after it, or the error the wire data forces.
pub open spec fn spec_parse_comment(d: Seq<u8>, pos: int) -> Result<
    ((Seq<char>, Seq<char>), int),
    DecodeError,
> {
    if pos + 4 > d.len() {
        Err(DecodeError::BoundsViolation { offset: pos as usize })
    } else {
        let len = le_val(d.subrange(pos, pos + 4)) as int;
        if pos + 4 + len > d.len() {
            Err(DecodeError::BoundsViolation { offset: (pos + 4) as usize })
        } else {
            let body = d.subrange(pos + 4, pos + 4 + len);
            let eq = find_first(body, 0x3Du8);
            if eq == body.len() {
                Err(DecodeError::StructuralViolation { offset: (pos + 4) as usize })
            } else {
                let kb = body.subrange(0, eq);
                let vb = body.subrange(eq + 1, body.len() as int);
                if !valid_utf8(kb) || !valid_utf8(vb) {
                    Err(DecodeError::EncodingViolation { offset: (pos + 4) as usize })
                } else {
                    Ok(((decode_utf8(kb), decode_utf8(vb)), pos + 4 + len))
                }
            }
        }
    }
}

/// Up to `count` comments starting at `pos`; a list truncated by the end
/// of the buffer is tolerated, not fatal.
pub open spec fn spec_parse_comments(d: Seq<u8>, pos: int, count: nat) -> Result<
    (Seq<(Seq<char>, Seq<char>)>, int),
    DecodeError,
>
    decreases count,
{
    if count == 0 || pos == d.len() {
        Ok((seq![], pos))
    } else {
        match spec_parse_comment(d, pos) {
            Err(e) => Err(e),
            Ok((pair, p2)) => match spec_parse_comments(d, p2, (count - 1) as nat) {
                Err(e) => Err(e),
                Ok((rest, p3)) => Ok((seq![pair] + rest, p3)),
            },
        }
    }
}

/// A whole Vorbis comment block starting at `pos`: vendor string, comment
/// count, then the comments.
pub open spec fn spec_parse_vorbis_comment(d: Seq<u8>, pos: int) -> Result<
    (VorbisCommentView, int),
    DecodeError,
> {
    if pos + 4 > d.len() {
        Err(DecodeError::BoundsViolation { offset: pos as usize })
    } else {
        let vlen = le_val(d.subrange(pos, pos + 4)) as int;
        if pos + 4 + vlen > d.len() {
            Err(DecodeError::BoundsViolation { offset: (pos + 4) as usize })
        } else {
            let vb = d.subrange(pos + 4, pos + 4 + vlen);
            if !valid_utf8(vb) {
                Err(DecodeError::EncodingViolation { offset: (pos + 4) as usize })
            } else {
                let p2 = pos + 4 + vlen;
                if p2 + 4 > d.len() {
                    Err(DecodeError::BoundsViolation { offset: p2 as usize })
                } else {
                    let count = le_val(d.subrange(p2, p2 + 4));
                    match spec_parse_comments(d, p2 + 4, count) {
                        Err(e) => Err(e),
                        Ok((pairs, p3)) => Ok(
                            (VorbisCommentView { vendor: decode_utf8(vb), comments: pairs }, p3),
                        ),
                    }
                }
            }
        }
    }
}

/// A decoded Vorbis comment block: the vendor string and the ordered
/// key/value comment list (insertion order preserved, keys may repeat).
pub struct VorbisComment {
    vendor: String,
    comments: Vec<(String, String)>,
}

impl View for VorbisComment {
    type V = VorbisCommentView;

    closed spec fn view(&self) -> VorbisCommentView {
        VorbisCommentView {
            vendor: self.vendor@,
            comments: self.comments@.map_values(|p: (String, String)| (p.0@, p.1@)),
        }
    }
}

/// Joins an already-decoded comment prefix with the outcome of parsing
/// the remaining comments.
pub open spec fn comments_join(
    prefix: Seq<(Seq<char>, Seq<char>)>,
    rest: Result<(Seq<(Seq<char>, Seq<char>)>, int), DecodeError>,
) -> Result<(Seq<(Seq<char>, Seq<char>)>, int), DecodeError> {
    match rest {
        Ok((s, p)) => Ok((prefix + s, p)),
        Err(e) => Err(e),
    }
}

/// Reads one length-prefixed `key=value` comment.
fn read_comment(reader: &mut ByteReader) -> (r: Result<(String, String), DecodeError>)
    requires
        old(reader).wf(),
    ensures
        final(reader).wf(),
        final(reader).data() == old(reader).data(),
        match spec_parse_comment(old(reader).data(), old(reader).pos()) {
            Ok((pair, p2)) => r matches Ok(c) && (c.0@, c.1@) == pair && final(reader).pos() == p2,
            Err(e) => r == Err::<(String, String), DecodeError>(e),
        },
{
    let len = match reader.read_u32(false) {
        Ok(v) => v,
        Err(e) => { return Err(e) },
    };
    let spos = reader.offset();
    let body = match reader.read_vec(len as usize) {
        Ok(b) => b,
        Err(e) => { return Err(e) },
    };
    let mut eq: usize = 0;
    let mut found = false;
    while eq < body.len() && !found
        invariant
            0 <= eq <= body@.len(),
            forall|k: int| 0 <= k < eq ==> body@[k] != 0x3Du8,
            found ==> eq < body@.len() && body@[eq as int] == 0x3Du8,
        decreases body@.len() - eq + (if found {
            0int
        } else {
            1int
        }),
    {
        if body[eq] == 0x3D {
            found = true;
        } else {
            eq = eq + 1;
        }
    }
    proof {
        lemma_find_first_is(body@, 0x3Du8, eq as int);
    }
    if !found {
        return Err(DecodeError::StructuralViolation { offset: spos });
    }
    let sl = body.as_slice();
    let kb = vstd::slice::slice_to_vec(&sl[0..eq]);
    let vb = vstd::slice::slice_to_vec(&sl[eq + 1..body.len()]);
    let k = match string_from_utf8(kb) {
        Some(s) => s,
        None => { return Err(DecodeError::EncodingViolation { offset: spos }) },
    };
    let v = match string_from_utf8(vb) {
        Some(s) => s,
        None => { return Err(DecodeError::EncodingViolation { offset: spos }) },
    };
    Ok((k, v))
}

impl VorbisComment {
    /// Decodes a Vorbis comment block from the start of `bytes`.
    pub fn new(bytes: &[u8]) -> (r: Result<VorbisComment, DecodeError>)
        ensures
            match spec_parse_vorbis_comment(bytes@, 0) {
                Ok((v, _)) => r matches Ok(c) && c@ == v,
                Err(e) => r == Err::<VorbisComment, DecodeError>(e),
            },
    {
        let mut reader = ByteReader::new(bytes);
        VorbisComment::with_byte_reader(&mut reader)
    }

    /// Decodes a Vorbis comment block at the cursor's current position,
    /// leaving the cursor just past the comments on success.
    #[verifier::loop_isolation(false)]
    pub fn with_byte_reader(reader: &mut ByteReader) -> (r: Result<VorbisComment, DecodeError>)
        requires
            old(reader).wf(),
        ensures
            final(reader).wf(),
            final(reader).data() == old(reader).data(),
            match spec_parse_vorbis_comment(old(reader).data(), old(reader).pos()) {
                Ok((v, p)) => r matches Ok(c) && c@ == v && final(reader).pos() == p,
                Err(e) => r == Err::<VorbisComment, DecodeError>(e),
            },
    {
        let ghost d = old(reader).data();
        let vlen = match reader.read_u32(false) {
            Ok(v) => v,
            Err(e) => { return Err(e) },
        };
        let vendor = match reader.read_utf8_fixed(vlen as usize) {
            Ok(s) => s,
            Err(e) => { return Err(e) },
        };
        let count = match reader.read_u32(false) {
            Ok(v) => v,
            Err(e) => { return Err(e) },
        };
        let ghost start_c = reader.pos();
        let ghost target = spec_parse_comments(d, start_c, count as nat);
        let mut comments: Vec<(String, String)> = Vec::new();
        let mut done: u32 = 0;
        proof {
            if target is Ok {
                assert(Seq::<(Seq<char>, Seq<char>)>::empty() + target->Ok_0.0 =~= target->Ok_0.0);
            }
        }
        while done < count && !reader.is_end()
            invariant
                reader.wf(),
                reader.data() == d,
                done <= count,
                target == spec_parse_comments(d, start_c, count as nat),
                comments@.len() == done,
                target == comments_join(
                    comments@.map_values(|p: (String, String)| (p.0@, p.1@)),
                    spec_parse_comments(d, reader.pos(), (count - done) as nat),
                ),
            decreases count - done,
        {
            let ghost p_cur = reader.pos();
            let ghost built = comments@.map_values(|p: (String, String)| (p.0@, p.1@));
            let pair = match read_comment(reader) {
                Ok(p) => p,
                Err(e) => {
                    proof {
                        assert(spec_parse_comments(d, p_cur, (count - done) as nat) == Err::<
                            (Seq<(Seq<char>, Seq<char>)>, int),
                            DecodeError,
                        >(e));
                    }
                    return Err(e);
                },
            };
            comments.push(pair);
            done = done + 1;
            proof {
                let spair = spec_parse_comment(d, p_cur)->Ok_0;
                let rest = spec_parse_comments(d, reader.pos(), (count - done) as nat);
                assert(comments@.map_values(|p: (String, String)| (p.0@, p.1@)) =~= built.push(
                    spair.0,
                ));
                if rest is Ok {
                    assert(built + (seq![spair.0] + rest->Ok_0.0) =~= built.push(spair.0)
                        + rest->Ok_0.0);
                }
            }
        }
        proof {
            assert(spec_parse_comments(d, reader.pos(), (count - done) as nat) == Ok::<
                (Seq<(Seq<char>, Seq<char>)>, int),
                DecodeError,
            >((seq![], reader.pos())));
            let built = comments@.map_values(|p: (String, String)| (p.0@, p.1@));
            assert(built + seq![] =~= built);
        }
        Ok(VorbisComment { vendor, comments })
    }

    /// The vendor string.
    pub fn vendor(&self) -> (r: &str)
        ensures
            r@ == self@.vendor,
    {
        self.vendor.as_str()
    }

    /// The ordered key/value comment list.
    pub fn comments(&self) -> (r: &Vec<(String, String)>)
        ensures
            r@.len() == self@.comments.len(),
            forall|i: int|
                0 <= i < r@.len() ==> #[trigger] self@.comments[i] == (r@[i].0@, r@[i].1@),
    {
        &self.comments
    }
}

/// True when the pair `(k, v)` can stand in the wire format: the key's
/// UTF-8 encoding contains no `=` byte, and the encoded comment length
/// fits its 32-bit field.
pub open spec fn encodable_comment(k: Seq<char>, v: Seq<char>) -> bool {
    &&& forall|i: int| 0 <= i < encode_utf8(k).len() ==> #[trigger] encode_utf8(k)[i] != 0x3Du8
    &&& encode_utf8(k).len() + 1 + encode_utf8(v).len() < 0x100000000
}

/// True when a vendor string and comment list can be encoded: the vendor's
/// UTF-8 length and the comment count fit their 32-bit fields and every
/// pair is encodable.
pub open spec fn encodable_vorbis_comment(
    vendor: Seq<char>,
    pairs: Seq<(Seq<char>, Seq<char>)>,
) -> bool {
    &&& encode_utf8(vendor).len() < 0x100000000
    &&& pairs.len() < 0x100000000
    &&& forall|i: int|
        0 <= i < pairs.len() ==> #[trigger] encodable_comment(pairs[i].0, pairs[i].1)
}

/// The wire form of one comment: a 32-bit little-endian length, then
/// `key=value` in UTF-8.
pub open spec fn spec_encode_comment(k: Seq<char>, v: Seq<char>) -> Seq<u8> {
    le_bytes(encode_utf8(k).len() + 1 + encode_utf8(v).len(), 4) + encode_utf8(k) + seq![0x3Du8]
        + encode_utf8(v)
}

/// The wire form of a comment list.
pub open spec fn spec_encode_comments(pairs: Seq<(Seq<char>, Seq<char>)>) -> Seq<u8>
    decreases pairs.len(),
{
    if pairs.len() == 0 {
        seq![]
    } else {
        spec_encode_comment(pairs[0].0, pairs[0].1) + spec_encode_comments(pairs.drop_first())
    }
}

/// The wire form of a whole Vorbis comment block.
pub open spec fn spec_encode_vorbis_comment(
    vendor: Seq<char>,
    pairs: Seq<(Seq<char>, Seq<char>)>,
) -> Seq<u8> {
    le_bytes(encode_utf8(vendor).len(), 4) + encode_utf8(vendor) + le_bytes(pairs.len(), 4)
        + spec_encode_comments(pairs)
}

/// Appending one pair extends the encoded comment list by that pair's
/// wire form.
proof fn lemma_spec_encode_comments_push(
    pairs: Seq<(Seq<char>, Seq<char>)>,
    p: (Seq<char>, Seq<char>),
)
    ensures
        spec_encode_comments(pairs.push(p)) == spec_encode_comments(pairs) + spec_encode_comment(
            p.0,
            p.1,
        ),
    decreases pairs.len(),
{
    if pairs.len() == 0 {
        assert(pairs.push(p)[0] == p);
        assert(pairs.push(p).drop_first() =~= pairs);
        assert(spec_encode_comments(pairs.push(p)) =~= spec_encode_comments(pairs)
            + spec_encode_comment(p.0, p.1));
    } else {
        assert(pairs.push(p).drop_first() =~= pairs.drop_first().push(p));
        assert(pairs.push(p)[0] == pairs[0]);
        lemma_spec_encode_comments_push(pairs.drop_first(), p);
        assert(spec_encode_comments(pairs.push(p)) =~= spec_encode_comments(pairs)
            + spec_encode_comment(p.0, p.1));
    }
}

/// Parsing an encoded comment list from its own start yields exactly the
/// pairs that were encoded and consumes all of it.
proof fn lemma_parse_encoded_comments(d: Seq<u8>, pos: int, pairs: Seq<(Seq<char>, Seq<char>)>)
    requires
        0 <= pos <= d.len(),
        d.subrange(pos, d.len() as int) == spec_encode_comments(pairs),
        forall|i: int|
            0 <= i < pairs.len() ==> #[trigger] encodable_comment(pairs[i].0, pairs[i].1),
    ensures
        spec_parse_comments(d, pos, pairs.len() as nat) == Ok::<
            (Seq<(Seq<char>, Seq<char>)>, int),
            DecodeError,
        >((pairs, d.len() as int)),
    decreases pairs.len(),
{
    let tail = d.subrange(pos, d.len() as int);
    if pairs.len() == 0 {
        assert(tail.len() == 0);
        assert(pos == d.len());
        assert(pairs =~= Seq::<(Seq<char>, Seq<char>)>::empty());
    } else {
        assert(encodable_comment(pairs[0].0, pairs[0].1));
        let kb = encode_utf8(pairs[0].0);
        let vb = encode_utf8(pairs[0].1);
        let tot = (kb.len() + 1 + vb.len()) as int;
        let enc1 = spec_encode_comment(pairs[0].0, pairs[0].1);
        let rest_enc = spec_encode_comments(pairs.drop_first());
        assert(tail == enc1 + rest_enc);
        assert(pow256(4) == 0x100000000) by {
            reveal_with_fuel(pow256, 5);
        }
        lemma_le_bytes_val((kb.len() + 1 + vb.len()) as nat, 4);
        assert(enc1.len() == 4 + tot);
        assert(pos + 4 + tot <= d.len());
        assert(d.subrange(pos, pos + 4) =~= le_bytes((kb.len() + 1 + vb.len()) as nat, 4));
        assert(le_val(d.subrange(pos, pos + 4)) == kb.len() + 1 + vb.len());
        let body = d.subrange(pos + 4, pos + 4 + tot);
        assert forall|k: int| 0 <= k < tot implies body[k] == (kb + seq![0x3Du8] + vb)[k] by {
            assert(body[k] == d[pos + 4 + k]);
            assert(tail[4 + k] == d[pos + 4 + k]);
            assert(tail[4 + k] == enc1[4 + k]);
        }
        assert(body =~= kb + seq![0x3Du8] + vb);
        assert forall|j: int| 0 <= j < kb.len() implies body[j] != 0x3Du8 by {
            assert(body[j] == kb[j]);
        }
        assert(body[kb.len() as int] == 0x3Du8);
        lemma_find_first_is(body, 0x3Du8, kb.len() as int);
        assert(body.subrange(0, kb.len() as int) =~= kb);
        assert(body.subrange(kb.len() as int + 1, body.len() as int) =~= vb);
        vstd::utf8::encode_utf8_valid_utf8(pairs[0].0);
        vstd::utf8::encode_utf8_valid_utf8(pairs[0].1);
        vstd::utf8::encode_utf8_decode_utf8(pairs[0].0);
        vstd::utf8::encode_utf8_decode_utf8(pairs[0].1);
        assert(spec_parse_comment(d, pos) == Ok::<((Seq<char>, Seq<char>), int), DecodeError>(
            ((pairs[0].0, pairs[0].1), pos + 4 + tot),
        ));
        let pos2 = pos + 4 + tot;
        assert(d.len() - pos2 == rest_enc.len());
        assert forall|k: int| 0 <= k < rest_enc.len() implies d.subrange(pos2, d.len() as int)[k]
            == rest_enc[k] by {
            assert(d.subrange(pos2, d.len() as int)[k] == d[pos2 + k]);
            assert(tail[pos2 - pos + k] == d[pos2 + k]);
            assert(tail[pos2 - pos + k] == rest_enc[k]);
        }
        assert(d.subrange(pos2, d.len() as int) =~= rest_enc);
        assert forall|i: int| 0 <= i < pairs.drop_first().len() implies #[trigger] encodable_comment(
            pairs.drop_first()[i].0,
            pairs.drop_first()[i].1,
        ) by {
            assert(pairs.drop_first()[i] == pairs[i + 1]);
        }
        lemma_parse_encoded_comments(d, pos2, pairs.drop_first());
        assert((pairs[0].0, pairs[0].1) == pairs[0]);
        assert(seq![pairs[0]] + pairs.drop_first() =~= pairs);
    }
}

/// Law: decoding the wire form of a vendor string and comment list
/// reproduces the vendor string and the same ordered pairs, consuming the
/// whole encoding.
pub proof fn lemma_vorbis_comment_round_trip(
    vendor: Seq<char>,
    pairs: Seq<(Seq<char>, Seq<char>)>,
)
    requires
        encodable_vorbis_comment(vendor, pairs),
    ensures
        ({
            let enc = spec_encode_vorbis_comment(vendor, pairs);
            spec_parse_vorbis_comment(enc, 0) == Ok::<(VorbisCommentView, int), DecodeError>(
                (VorbisCommentView { vendor, comments: pairs }, enc.len() as int),
            )
        }),
{
    let d = spec_encode_vorbis_comment(vendor, pairs);
    let vb = encode_utf8(vendor);
    let vlen = vb.len() as int;
    assert(pow256(4) == 0x100000000) by {
        reveal_with_fuel(pow256, 5);
    }
    lemma_le_bytes_val(vb.len(), 4);
    lemma_le_bytes_val(pairs.len(), 4);
    assert(d.len() == 8 + vlen + spec_encode_comments(pairs).len());
    assert(d.subrange(0, 4) =~= le_bytes(vb.len(), 4));
    assert(le_val(d.subrange(0, 4)) == vb.len());
    assert(d.subrange(4, 4 + vlen) =~= vb);
    vstd::utf8::encode_utf8_valid_utf8(vendor);
    vstd::utf8::encode_utf8_decode_utf8(vendor);
    let p2 = 4 + vlen;
    assert(d.subrange(p2, p2 + 4) =~= le_bytes(pairs.len(), 4));
    assert(le_val(d.subrange(p2, p2 + 4)) == pairs.len());
    assert(d.subrange(p2 + 4, d.len() as int) =~= spec_encode_comments(pairs));
    lemma_parse_encoded_comments(d, p2 + 4, pairs);
}

/// Encodes a vendor string and comment pairs into the Vorbis comment wire
/// format. Returns `None` exactly when a key's UTF-8 form contains an `=`
/// byte or a length does not fit its 32-bit field; on success, decoding
/// the result reproduces the inputs.
#[verifier::loop_isolation(false)]
pub fn encode_vorbis_comment(vendor: &str, comments: &Vec<(String, String)>) -> (r: Option<
    Vec<u8>,
>)
    ensures
        ({
            let pairs = comments@.map_values(|p: (String, String)| (p.0@, p.1@));
            &&& (r is Some <==> encodable_vorbis_comment(vendor@, pairs))
            &&& (r matches Some(b) ==> b@ == spec_encode_vorbis_comment(vendor@, pairs)
                && spec_parse_vorbis_comment(b@, 0) == Ok::<(VorbisCommentView, int), DecodeError>(
                (VorbisCommentView { vendor: vendor@, comments: pairs }, b@.len() as int),
            ))
        }),
{
    let ghost pairs = comments@.map_values(|p: (String, String)| (p.0@, p.1@));
    let vb = vendor.as_bytes();
    if vb.len() as u64 >= 0x100000000u64 {
        return None;
    }
    if comments.len() as u64 >= 0x100000000u64 {
        return None;
    }
    let mut out: Vec<u8> = Vec::new();
    push_le32(&mut out, vb.len() as u32);
    out.extend_from_slice(vb);
    push_le32(&mut out, comments.len() as u32);
    let ghost header = le_bytes(encode_utf8(vendor@).len(), 4) + encode_utf8(vendor@) + le_bytes(
        pairs.len(),
        4,
    );
    proof {
        assert(out@ =~= header + spec_encode_comments(pairs.take(0)));
    }
    let mut i: usize = 0;
    while i < comments.len()
        invariant
            0 <= i <= comments@.len(),
            pairs == comments@.map_values(|p: (String, String)| (p.0@, p.1@)),
            pairs.len() == comments@.len(),
            header == le_bytes(encode_utf8(vendor@).len(), 4) + encode_utf8(vendor@) + le_bytes(
                pairs.len(),
                4,
            ),
            forall|j: int| 0 <= j < i ==> #[trigger] encodable_comment(pairs[j].0, pairs[j].1),
            out@ == header + spec_encode_comments(pairs.take(i as int)),
        decreases comments@.len() - i,
    {
        let pair = &comments[i];
        let kb = pair.0.as_str().as_bytes();
        let vbp = pair.1.as_str().as_bytes();
        let mut j: usize = 0;
        while j < kb.len()
            invariant
                0 <= j <= kb@.len(),
                forall|t: int| 0 <= t < j ==> kb@[t] != 0x3Du8,
            decreases kb@.len() - j,
        {
            if kb[j] == 0x3D {
                proof {
                    assert(!encodable_comment(pairs[i as int].0, pairs[i as int].1));
                }
                return None;
            }
            j = j + 1;
        }
        if kb.len() as u64 >= 0xFFFFFFFFu64 {
            proof {
                assert(!encodable_comment(pairs[i as int].0, pairs[i as int].1));
            }
            return None;
        }
        if vbp.len() as u64 > 0xFFFFFFFFu64 - 1 - (kb.len() as u64) {
            proof {
                assert(!encodable_comment(pairs[i as int].0, pairs[i as int].1));
            }
            return None;
        }
        let tot: u64 = kb.len() as u64 + 1 + vbp.len() as u64;
        push_le32(&mut out, tot as u32);
        out.extend_from_slice(kb);
        out.push(0x3D);
        out.extend_from_slice(vbp);
        proof {
            assert(encodable_comment(pairs[i as int].0, pairs[i as int].1));
            lemma_spec_encode_comments_push(pairs.take(i as int), pairs[i as int]);
            assert(pairs.take(i + 1) =~= pairs.take(i as int).push(pairs[i as int]));
            assert(out@ =~= header + spec_encode_comments(pairs.take(i + 1)));
        }
        i = i + 1;
    }
    proof {
        assert(pairs.take(pairs.len() as int) =~= pairs);
        assert(out@ =~= spec_encode_vorbis_comment(vendor@, pairs));
        lemma_vorbis_comment_round_trip(vendor@, pairs);
    }
    Some(out)
}

} // verus!
