//! A simplified title/artist/album/cover view folded from the decoded
//! record lists of any of the three supported containers. For the text
//! fields the last occurrence of a key wins, across blocks and in order;
//! the cover is the first picture record.

use vstd::prelude::*;
use vstd::string::StrSliceExecFns;

use crate::flac::{flac_signature, spec_parse_flac, Flac, FlacBlockView, FlacParsedBlock,
    PictureView};
use crate::id3::{id3_signature, spec_parse_id3, Id3TagView, ID3, ID3ParsedTag};
use crate::ogg::{ogg_signature, spec_parse_ogg, Ogg, OggPageView, OggParsedPage};

verus! {

/// Mathematical model of a cover image.
pub ghost struct ImageView {
    pub data: Seq<u8>,
    pub description: Seq<char>,
    pub mime: Seq<char>,
}

/// Mathematical model of the simplified metadata view.
pub ghost struct MetadataView {
    pub title: Option<Seq<char>>,
    pub artist: Option<Seq<char>>,
    pub album: Option<Seq<char>>,
    pub cover: Option<ImageView>,
}

/// A cover image: raw bytes, description and MIME type.
pub struct Image {
    pub data: Vec<u8>,
    pub description: String,
    pub mime: String,
}

impl View for Image {
    type V = ImageView;

    open spec fn view(&self) -> ImageView {
        ImageView { data: self.data@, description: self.description@, mime: self.mime@ }
    }
}

/// The simplified metadata view: title, artist, album and cover, each
/// optional.
pub struct Metadata {
    pub title: Option<String>,
    pub artist: Option<String>,
    pub album: Option<String>,
    pub cover: Option<Image>,
}

impl View for Metadata {
    type V = MetadataView;

    open spec fn view(&self) -> MetadataView {
        MetadataView {
            title: match &self.title {
                Some(s) => Some(s@),
                None => None,
            },
            artist: match &self.artist {
                Some(s) => Some(s@),
                None => None,
            },
            album: match &self.album {
                Some(s) => Some(s@),
                None => None,
            },
            cover: match &self.cover {
                Some(i) => Some(i@),
                None => None,
            },
        }
    }
}

/// The value of the last comment pair whose key is `key`.
pub open spec fn last_value(pairs: Seq<(Seq<char>, Seq<char>)>, key: Seq<char>) -> Option<
    Seq<char>,
>
    decreases pairs.len(),
{
    if pairs.len() == 0 {
        None
    } else if pairs.last().0 == key {
        Some(pairs.last().1)
    } else {
        last_value(pairs.drop_last(), key)
    }
}

/// Appending a pair only changes a key's last value when the pair
/// carries that key.
pub proof fn lemma_last_value_push(
    pairs: Seq<(Seq<char>, Seq<char>)>,
    p: (Seq<char>, Seq<char>),
    key: Seq<char>,
)
    ensures
        last_value(pairs.push(p), key) == (if p.0 == key {
            Some(p.1)
        } else {
            last_value(pairs, key)
        }),
{
    assert(pairs.push(p).last() == p);
    assert(pairs.push(p).drop_last() =~= pairs);
}

/// A later run of pairs overrides an earlier one key by key.
pub proof fn lemma_last_value_concat(
    a: Seq<(Seq<char>, Seq<char>)>,
    b: Seq<(Seq<char>, Seq<char>)>,
    key: Seq<char>,
)
    ensures
        last_value(a + b, key) == (match last_value(b, key) {
            Some(v) => Some(v),
            None => last_value(a, key),
        }),
    decreases b.len(),
{
    if b.len() == 0 {
        assert(a + b =~= a);
    } else {
        assert((a + b).last() == b.last());
        assert((a + b).drop_last() =~= a + b.drop_last());
        lemma_last_value_concat(a, b.drop_last(), key);
    }
}

/// The comment pairs of all VORBIS_COMMENT blocks of a FLAC stream, in
/// order.
pub open spec fn flac_comment_pairs(blocks: Seq<FlacBlockView>) -> Seq<(Seq<char>, Seq<char>)>
    decreases blocks.len(),
{
    if blocks.len() == 0 {
        seq![]
    } else {
        (match blocks[0] {
            FlacBlockView::Comment(v) => v.comments,
            _ => seq![],
        }) + flac_comment_pairs(blocks.drop_first())
    }
}

proof fn lemma_flac_comment_pairs_push(blocks: Seq<FlacBlockView>, b: FlacBlockView)
    ensures
        flac_comment_pairs(blocks.push(b)) == flac_comment_pairs(blocks) + (match b {
            FlacBlockView::Comment(v) => v.comments,
            _ => seq![],
        }),
    decreases blocks.len(),
{
    let tailpairs = (match b {
        FlacBlockView::Comment(v) => v.comments,
        _ => seq![],
    });
    if blocks.len() == 0 {
        assert(blocks.push(b)[0] == b);
        assert(blocks.push(b).drop_first() =~= blocks);
        assert(flac_comment_pairs(blocks.push(b)) =~= flac_comment_pairs(blocks) + tailpairs);
    } else {
        assert(blocks.push(b)[0] == blocks[0]);
        assert(blocks.push(b).drop_first() =~= blocks.drop_first().push(b));
        lemma_flac_comment_pairs_push(blocks.drop_first(), b);
        assert(flac_comment_pairs(blocks.push(b)) =~= flac_comment_pairs(blocks) + tailpairs);
    }
}

/// The first PICTURE block of a FLAC stream.
pub open spec fn first_flac_picture(blocks: Seq<FlacBlockView>) -> Option<PictureView>
    decreases blocks.len(),
{
    if blocks.len() == 0 {
        None
    } else {
        match blocks[0] {
            FlacBlockView::Picture(p) => Some(p),
            _ => first_flac_picture(blocks.drop_first()),
        }
    }
}

proof fn lemma_first_flac_picture_push(blocks: Seq<FlacBlockView>, b: FlacBlockView)
    ensures
        first_flac_picture(blocks.push(b)) == (match first_flac_picture(blocks) {
            Some(p) => Some(p),
            None => match b {
                FlacBlockView::Picture(p) => Some(p),
                _ => None,
            },
        }),
    decreases blocks.len(),
{
    if blocks.len() == 0 {
        assert(blocks.push(b)[0] == b);
        assert(blocks.push(b).drop_first() =~= blocks);
    } else {
        assert(blocks.push(b)[0] == blocks[0]);
        assert(blocks.push(b).drop_first() =~= blocks.drop_first().push(b));
        lemma_first_flac_picture_push(blocks.drop_first(), b);
    }
}

/// The simplified view folded from the blocks of a FLAC stream.
pub open spec fn spec_summarize_flac(blocks: Seq<FlacBlockView>) -> MetadataView {
    let pairs = flac_comment_pairs(blocks);
    MetadataView {
        title: last_value(pairs, seq!['T', 'I', 'T', 'L', 'E']),
        artist: last_value(pairs, seq!['A', 'R', 'T', 'I', 'S', 'T']),
        album: last_value(pairs, seq!['A', 'L', 'B', 'U', 'M']),
        cover: match first_flac_picture(blocks) {
            Some(p) => Some(ImageView { data: p.data, description: p.desc, mime: p.mime }),
            None => None,
        },
    }
}

/// The comment pairs of the comment pages of an OGG stream, in order.
pub open spec fn ogg_comment_pairs(pages: Seq<OggPageView>) -> Seq<(Seq<char>, Seq<char>)>
    decreases pages.len(),
{
    if pages.len() == 0 {
        seq![]
    } else {
        (match pages[0] {
            OggPageView::Comments(v) => v.comments,
            _ => seq![],
        }) + ogg_comment_pairs(pages.drop_first())
    }
}

proof fn lemma_ogg_comment_pairs_push(pages: Seq<OggPageView>, p: OggPageView)
    ensures
        ogg_comment_pairs(pages.push(p)) == ogg_comment_pairs(pages) + (match p {
            OggPageView::Comments(v) => v.comments,
            _ => seq![],
        }),
    decreases pages.len(),
{
    let tailpairs = (match p {
        OggPageView::Comments(v) => v.comments,
        _ => seq![],
    });
    if pages.len() == 0 {
        assert(pages.push(p)[0] == p);
        assert(pages.push(p).drop_first() =~= pages);
        assert(ogg_comment_pairs(pages.push(p)) =~= ogg_comment_pairs(pages) + tailpairs);
    } else {
        assert(pages.push(p)[0] == pages[0]);
        assert(pages.push(p).drop_first() =~= pages.drop_first().push(p));
        lemma_ogg_comment_pairs_push(pages.drop_first(), p);
        assert(ogg_comment_pairs(pages.push(p)) =~= ogg_comment_pairs(pages) + tailpairs);
    }
}

/// The comment key under which an OGG stream carries its base64-encoded
/// picture structure.
pub open spec fn picture_key() -> Seq<char> {
    seq![
        'M',
        'E',
        'T',
        'A',
        'D',
        'A',
        'T',
        'A',
        '_',
        'B',
        'L',
        'O',
        'C',
        'K',
        '_',
        'P',
        'I',
        'C',
        'T',
        'U',
        'R',
        'E',
    ]
}

/// The simplified view folded from the pages of an OGG stream. The cover
/// comes from the last `METADATA_BLOCK_PICTURE` comment: its value is
/// base64-decoded and read as a FLAC PICTURE structure; a value that does
/// not decode yields no cover.
pub open spec fn spec_summarize_ogg(pages: Seq<OggPageView>) -> MetadataView {
    let pairs = ogg_comment_pairs(pages);
    MetadataView {
        title: last_value(pairs, seq!['T', 'I', 'T', 'L', 'E']),
        artist: last_value(pairs, seq!['A', 'R', 'T', 'I', 'S', 'T']),
        album: last_value(pairs, seq!['A', 'L', 'B', 'U', 'M']),
        cover: match last_value(pairs, picture_key()) {
            None => None,
            Some(v) => match crate::base64::spec_b64_decode(vstd::utf8::encode_utf8(v)) {
                None => None,
                Some(bytes) => match crate::flac::spec_decode_picture(bytes) {
                    Err(_) => None,
                    Ok(p) => Some(
                        ImageView { data: p.data, description: p.desc, mime: p.mime },
                    ),
                },
            },
        },
    }
}

/// The id/text pairs of the text-information tags of an ID3 buffer, in
/// order.
pub open spec fn id3_text_pairs(tags: Seq<Id3TagView>) -> Seq<(Seq<char>, Seq<char>)>
    decreases tags.len(),
{
    if tags.len() == 0 {
        seq![]
    } else {
        (match tags[0] {
            Id3TagView::Text(p) => seq![p],
            _ => seq![],
        }) + id3_text_pairs(tags.drop_first())
    }
}

proof fn lemma_id3_text_pairs_push(tags: Seq<Id3TagView>, t: Id3TagView)
    ensures
        id3_text_pairs(tags.push(t)) == id3_text_pairs(tags) + (match t {
            Id3TagView::Text(p) => seq![p],
            _ => seq![],
        }),
    decreases tags.len(),
{
    let tailpairs = (match t {
        Id3TagView::Text(p) => seq![p],
        _ => seq![],
    });
    if tags.len() == 0 {
        assert(tags.push(t)[0] == t);
        assert(tags.push(t).drop_first() =~= tags);
        assert(id3_text_pairs(tags.push(t)) =~= id3_text_pairs(tags) + tailpairs);
    } else {
        assert(tags.push(t)[0] == tags[0]);
        assert(tags.push(t).drop_first() =~= tags.drop_first().push(t));
        lemma_id3_text_pairs_push(tags.drop_first(), t);
        assert(id3_text_pairs(tags.push(t)) =~= id3_text_pairs(tags) + tailpairs);
    }
}

/// The first attached picture of an ID3 buffer.
pub open spec fn first_id3_picture(tags: Seq<Id3TagView>) -> Option<crate::id3::ApicView>
    decreases tags.len(),
{
    if tags.len() == 0 {
        None
    } else {
        match tags[0] {
            Id3TagView::AttachedPicture(a) => Some(a),
            _ => first_id3_picture(tags.drop_first()),
        }
    }
}

proof fn lemma_first_id3_picture_push(tags: Seq<Id3TagView>, t: Id3TagView)
    ensures
        first_id3_picture(tags.push(t)) == (match first_id3_picture(tags) {
            Some(a) => Some(a),
            None => match t {
                Id3TagView::AttachedPicture(a) => Some(a),
                _ => None,
            },
        }),
    decreases tags.len(),
{
    if tags.len() == 0 {
        assert(tags.push(t)[0] == t);
        assert(tags.push(t).drop_first() =~= tags);
    } else {
        assert(tags.push(t)[0] == tags[0]);
        assert(tags.push(t).drop_first() =~= tags.drop_first().push(t));
        lemma_first_id3_picture_push(tags.drop_first(), t);
    }
}

/// The simplified view folded from the tags of an ID3 buffer.
pub open spec fn spec_summarize_id3(tags: Seq<Id3TagView>) -> MetadataView {
    let pairs = id3_text_pairs(tags);
    MetadataView {
        title: last_value(pairs, seq!['T', 'I', 'T', '2']),
        artist: last_value(pairs, seq!['T', 'P', 'E', '1']),
        album: last_value(pairs, seq!['T', 'A', 'L', 'B']),
        cover: match first_id3_picture(tags) {
            Some(a) => Some(
                ImageView { data: a.data, description: a.description, mime: a.mime },
            ),
            None => None,
        },
    }
}

/// The simplified metadata of a buffer: formats are probed in the order
/// FLAC, OGG, ID3; a buffer that matches no signature or fails to decode
/// yields nothing.
pub open spec fn spec_parse_meta(d: Seq<u8>) -> Option<MetadataView> {
    if flac_signature(d) {
        match spec_parse_flac(d) {
            Ok(blocks) => Some(spec_summarize_flac(blocks)),
            Err(_) => None,
        }
    } else if ogg_signature(d) {
        match spec_parse_ogg(d) {
            Ok(pages) => Some(spec_summarize_ogg(pages)),
            Err(_) => None,
        }
    } else if id3_signature(d) {
        match spec_parse_id3(d) {
            Ok(v) => Some(spec_summarize_id3(v.tags)),
            Err(_) => None,
        }
    } else {
        None
    }
}

/// True when the string's characters are exactly `expected`.
fn str_eq_chars(s: &str, expected: &[char]) -> (r: bool)
    ensures
        r == (s@ == expected@),
{
    let n = s.unicode_len();
    if n != expected.len() {
        proof {
            if s@ == expected@ {
                assert(s@.len() == expected@.len());
            }
        }
        return false;
    }
    let mut i: usize = 0;
    while i < n
        invariant
            0 <= i <= n,
            n == s@.len() && n == expected@.len(),
            forall|k: int| 0 <= k < i ==> s@[k] == expected@[k],
        decreases n - i,
    {
        if s.get_char(i) != expected[i] {
            proof {
                assert(s@[i as int] != expected@[i as int]);
            }
            return false;
        }
        i = i + 1;
    }
    proof {
        assert(s@ =~= expected@);
    }
    true
}

/// Copies an image out of borrowed parts.
fn make_image(data: &[u8], description: &str, mime: &str) -> (r: Image)
    ensures
        r@ == (ImageView { data: data@, description: description@, mime: mime@ }),
{
    Image {
        data: vstd::slice::slice_to_vec(data),
        description: description.to_owned(),
        mime: mime.to_owned(),
    }
}

/// Folds one Vorbis comment record into one field: the value of the
/// record's last pair whose key is `key` replaces the field.
#[verifier::loop_isolation(false)]
fn apply_named(vc: &crate::vorbis_comment::VorbisComment, key: &[char], slot: &mut Option<String>)
    ensures
        view_opt(final(slot)) == (match last_value((vc@).comments, key@) {
            Some(v) => Some(v),
            None => view_opt(old(slot)),
        }),
{
    let ghost pairs = (vc@).comments;
    let comments = vc.comments();
    let mut j: usize = 0;
    proof {
        assert(pairs.subrange(0, 0) =~= Seq::<(Seq<char>, Seq<char>)>::empty());
    }
    while j < comments.len()
        invariant
            0 <= j <= comments@.len(),
            view_opt(slot) == (match last_value(pairs.subrange(0, j as int), key@) {
                Some(v) => Some(v),
                None => view_opt(old(slot)),
            }),
        decreases comments@.len() - j,
    {
        let pair = &comments[j];
        proof {
            assert(pairs[j as int] == (comments@[j as int].0@, comments@[j as int].1@));
            assert(pairs.subrange(0, j + 1) =~= pairs.subrange(0, j as int).push(
                pairs[j as int],
            ));
            lemma_last_value_push(pairs.subrange(0, j as int), pairs[j as int], key@);
        }
        if str_eq_chars(pair.0.as_str(), key) {
            *slot = Some(pair.1.clone());
        }
        j = j + 1;
    }
    proof {
        assert(pairs.subrange(0, pairs.len() as int) =~= pairs);
    }
}

/// The character view of an optional string.
pub open spec fn view_opt(s: &Option<String>) -> Option<Seq<char>> {
    match s {
        Some(s) => Some(s@),
        None => None,
    }
}

// A helper stated once so the empty-prefix base case of the folds is
// available by name.
proof fn lemma_last_value_concat_prefix()
    ensures
        forall|key: Seq<char>|
            #[trigger] last_value(Seq::<(Seq<char>, Seq<char>)>::empty(), key) == None::<
                Seq<char>,
            >,
{
}

/// Folds a FLAC stream's blocks into the simplified view.
#[verifier::loop_isolation(false)]
pub fn summarize_flac(f: &Flac) -> (r: Metadata)
    ensures
        r@ == spec_summarize_flac(f@),
{
    let blocks = f.blocks();
    let mut title: Option<String> = None;
    let mut artist: Option<String> = None;
    let mut album: Option<String> = None;
    let mut cover: Option<Image> = None;
    let mut i: usize = 0;
    proof {
        assert(f@.subrange(0, 0) =~= Seq::<FlacBlockView>::empty());
    }
    while i < blocks.len()
        invariant
            0 <= i <= blocks@.len(),
            view_opt(&title) == last_value(
                flac_comment_pairs(f@.subrange(0, i as int)),
                seq!['T', 'I', 'T', 'L', 'E'],
            ),
            view_opt(&artist) == last_value(
                flac_comment_pairs(f@.subrange(0, i as int)),
                seq!['A', 'R', 'T', 'I', 'S', 'T'],
            ),
            view_opt(&album) == last_value(
                flac_comment_pairs(f@.subrange(0, i as int)),
                seq!['A', 'L', 'B', 'U', 'M'],
            ),
            (match &cover {
                Some(c) => Some(c@),
                None => None,
            }) == (match first_flac_picture(f@.subrange(0, i as int)) {
                Some(p) => Some(ImageView { data: p.data, description: p.desc, mime: p.mime }),
                None => None,
            }),
        decreases blocks@.len() - i,
    {
        let ghost prefix = f@.subrange(0, i as int);
        let ghost bv = f@[i as int];
        proof {
            assert(blocks@[i as int]@ == bv);
            assert(f@.subrange(0, i + 1) =~= prefix.push(bv));
            lemma_flac_comment_pairs_push(prefix, bv);
            lemma_first_flac_picture_push(prefix, bv);
            lemma_last_value_concat(
                flac_comment_pairs(prefix),
                (match bv {
                    FlacBlockView::Comment(v) => v.comments,
                    _ => seq![],
                }),
                seq!['T', 'I', 'T', 'L', 'E'],
            );
            lemma_last_value_concat(
                flac_comment_pairs(prefix),
                (match bv {
                    FlacBlockView::Comment(v) => v.comments,
                    _ => seq![],
                }),
                seq!['A', 'R', 'T', 'I', 'S', 'T'],
            );
            lemma_last_value_concat(
                flac_comment_pairs(prefix),
                (match bv {
                    FlacBlockView::Comment(v) => v.comments,
                    _ => seq![],
                }),
                seq!['A', 'L', 'B', 'U', 'M'],
            );
        }
        match &blocks[i] {
            FlacParsedBlock::Comment(vc) => {
                apply_named(vc, &['T', 'I', 'T', 'L', 'E'], &mut title);
                apply_named(vc, &['A', 'R', 'T', 'I', 'S', 'T'], &mut artist);
                apply_named(vc, &['A', 'L', 'B', 'U', 'M'], &mut album);
            },
            FlacParsedBlock::Picture(p) => {
                if cover.is_none() {
                    cover = Some(make_image(p.data(), p.description(), p.mime()));
                }
            },
            _ => (),
        }
        i = i + 1;
    }
    proof {
        assert(f@.subrange(0, f@.len() as int) =~= f@);
    }
    Metadata { title, artist, album, cover }
}

/// Folds an OGG stream's pages into the simplified view.
#[verifier::loop_isolation(false)]
pub fn summarize_ogg(o: &Ogg) -> (r: Metadata)
    ensures
        r@ == spec_summarize_ogg(o@),
{
    let pages = o.pages();
    let mut title: Option<String> = None;
    let mut artist: Option<String> = None;
    let mut album: Option<String> = None;
    let mut picture_value: Option<String> = None;
    let mut i: usize = 0;
    proof {
        assert(o@.subrange(0, 0) =~= Seq::<OggPageView>::empty());
    }
    while i < pages.len()
        invariant
            0 <= i <= pages@.len(),
            view_opt(&title) == last_value(
                ogg_comment_pairs(o@.subrange(0, i as int)),
                seq!['T', 'I', 'T', 'L', 'E'],
            ),
            view_opt(&artist) == last_value(
                ogg_comment_pairs(o@.subrange(0, i as int)),
                seq!['A', 'R', 'T', 'I', 'S', 'T'],
            ),
            view_opt(&album) == last_value(
                ogg_comment_pairs(o@.subrange(0, i as int)),
                seq!['A', 'L', 'B', 'U', 'M'],
            ),
            view_opt(&picture_value) == last_value(
                ogg_comment_pairs(o@.subrange(0, i as int)),
                picture_key(),
            ),
        decreases pages@.len() - i,
    {
        let ghost prefix = o@.subrange(0, i as int);
        let ghost pv = o@[i as int];
        proof {
            assert(pages@[i as int]@ == pv);
            assert(o@.subrange(0, i + 1) =~= prefix.push(pv));
            lemma_ogg_comment_pairs_push(prefix, pv);
            let newpairs = (match pv {
                OggPageView::Comments(v) => v.comments,
                _ => Seq::<(Seq<char>, Seq<char>)>::empty(),
            });
            lemma_last_value_concat(
                ogg_comment_pairs(prefix),
                newpairs,
                seq!['T', 'I', 'T', 'L', 'E'],
            );
            lemma_last_value_concat(
                ogg_comment_pairs(prefix),
                newpairs,
                seq!['A', 'R', 'T', 'I', 'S', 'T'],
            );
            lemma_last_value_concat(
                ogg_comment_pairs(prefix),
                newpairs,
                seq!['A', 'L', 'B', 'U', 'M'],
            );
            lemma_last_value_concat(ogg_comment_pairs(prefix), newpairs, picture_key());
        }
        match &pages[i] {
            OggParsedPage::Comments(vc) => {
                apply_named(vc, &['T', 'I', 'T', 'L', 'E'], &mut title);
                apply_named(vc, &['A', 'R', 'T', 'I', 'S', 'T'], &mut artist);
                apply_named(vc, &['A', 'L', 'B', 'U', 'M'], &mut album);
                apply_named(
                    vc,
                    &[
                        'M',
                        'E',
                        'T',
                        'A',
                        'D',
                        'A',
                        'T',
                        'A',
                        '_',
                        'B',
                        'L',
                        'O',
                        'C',
                        'K',
                        '_',
                        'P',
                        'I',
                        'C',
                        'T',
                        'U',
                        'R',
                        'E',
                    ],
                    &mut picture_value,
                );
            },
            _ => (),
        }
        i = i + 1;
    }
    proof {
        assert(o@.subrange(0, o@.len() as int) =~= o@);
    }
    let cover: Option<Image> = match &picture_value {
        None => None,
        Some(v) => match Ogg::parse_picture(v.as_str()) {
            Ok(p) => Some(Image { data: p.data, description: p.desc, mime: p.mime }),
            Err(_) => None,
        },
    };
    Metadata { title, artist, album, cover }
}

/// Folds an ID3 buffer's tags into the simplified view.
#[verifier::loop_isolation(false)]
pub fn summarize_id3(t: &ID3) -> (r: Metadata)
    ensures
        r@ == spec_summarize_id3(t@.tags),
{
    let tags = t.tags();
    let mut title: Option<String> = None;
    let mut artist: Option<String> = None;
    let mut album: Option<String> = None;
    let mut cover: Option<Image> = None;
    let mut i: usize = 0;
    proof {
        assert(t@.tags.subrange(0, 0) =~= Seq::<Id3TagView>::empty());
    }
    while i < tags.len()
        invariant
            0 <= i <= tags@.len(),
            view_opt(&title) == last_value(
                id3_text_pairs(t@.tags.subrange(0, i as int)),
                seq!['T', 'I', 'T', '2'],
            ),
            view_opt(&artist) == last_value(
                id3_text_pairs(t@.tags.subrange(0, i as int)),
                seq!['T', 'P', 'E', '1'],
            ),
            view_opt(&album) == last_value(
                id3_text_pairs(t@.tags.subrange(0, i as int)),
                seq!['T', 'A', 'L', 'B'],
            ),
            (match &cover {
                Some(c) => Some(c@),
                None => None,
            }) == (match first_id3_picture(t@.tags.subrange(0, i as int)) {
                Some(a) => Some(
                    ImageView { data: a.data, description: a.description, mime: a.mime },
                ),
                None => None,
            }),
        decreases tags@.len() - i,
    {
        let ghost prefix = t@.tags.subrange(0, i as int);
        let ghost tv = t@.tags[i as int];
        proof {
            assert(tags@[i as int]@ == tv);
            assert(t@.tags.subrange(0, i + 1) =~= prefix.push(tv));
            lemma_id3_text_pairs_push(prefix, tv);
            lemma_first_id3_picture_push(prefix, tv);
            let newpairs = (match tv {
                Id3TagView::Text(p) => seq![p],
                _ => Seq::<(Seq<char>, Seq<char>)>::empty(),
            });
            lemma_last_value_concat(id3_text_pairs(prefix), newpairs, seq!['T', 'I', 'T', '2']);
            lemma_last_value_concat(id3_text_pairs(prefix), newpairs, seq!['T', 'P', 'E', '1']);
            lemma_last_value_concat(id3_text_pairs(prefix), newpairs, seq!['T', 'A', 'L', 'B']);
            if tv is Text {
                assert(newpairs =~= Seq::<(Seq<char>, Seq<char>)>::empty().push(tv->Text_0));
                lemma_last_value_concat_prefix();
                lemma_last_value_push(
                    Seq::<(Seq<char>, Seq<char>)>::empty(),
                    tv->Text_0,
                    seq!['T', 'I', 'T', '2'],
                );
                lemma_last_value_push(
                    Seq::<(Seq<char>, Seq<char>)>::empty(),
                    tv->Text_0,
                    seq!['T', 'P', 'E', '1'],
                );
                lemma_last_value_push(
                    Seq::<(Seq<char>, Seq<char>)>::empty(),
                    tv->Text_0,
                    seq!['T', 'A', 'L', 'B'],
                );
            }
        }
        match &tags[i] {
            ID3ParsedTag::Text(p) => {
                if str_eq_chars(p.0.as_str(), &['T', 'I', 'T', '2']) {
                    title = Some(p.1.clone());
                } else if str_eq_chars(p.0.as_str(), &['T', 'P', 'E', '1']) {
                    artist = Some(p.1.clone());
                } else if str_eq_chars(p.0.as_str(), &['T', 'A', 'L', 'B']) {
                    album = Some(p.1.clone());
                }
            },
            ID3ParsedTag::AttachedPicture(a) => {
                if cover.is_none() {
                    cover = Some(make_image(a.data(), a.description(), a.mime()));
                }
            },
            _ => (),
        }
        i = i + 1;
    }
    proof {
        assert(t@.tags.subrange(0, t@.tags.len() as int) =~= t@.tags);
    }
    Metadata { title, artist, album, cover }
}

/// Extracts the simplified metadata of a buffer, probing the formats in
/// the order FLAC, OGG, ID3. A buffer that matches no signature or does
/// not decode yields `None`.
pub fn parse(bytes: &[u8]) -> (r: Option<Metadata>)
    ensures
        match spec_parse_meta(bytes@) {
            Some(mv) => r matches Some(m) && m@ == mv,
            None => r is None,
        },
{
    if Flac::is_format(bytes) {
        match Flac::from_bytes(bytes) {
            Ok(f) => Some(summarize_flac(&f)),
            Err(_) => None,
        }
    } else if Ogg::is_format(bytes) {
        match Ogg::from_bytes(bytes) {
            Ok(o) => Some(summarize_ogg(&o)),
            Err(_) => None,
        }
    } else if ID3::is_format(bytes) {
        match ID3::from_bytes(bytes) {
            Ok(t) => Some(summarize_id3(&t)),
            Err(_) => None,
        }
    } else {
        None
    }
}

} // verus!
