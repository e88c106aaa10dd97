//! Media classification by file extension.
use vstd::prelude::*;

use crate::text::{ascii_folded, ascii_small, is_ascii_text, is_ascii_upper, owned, text_eq};

verus! {

/// The category of a media file, decided by its normalized extension.
#[derive(Clone, Copy, Debug, PartialEq, Eq, Structural)]
pub enum MediaType {
    Image,
    Video,
    Unknown,
}

/// What `str::to_lowercase` returns for a string with the given characters.
pub uninterp spec fn lower_of(s: Seq<char>) -> Seq<char>;

/// Relies on `str::to_lowercase`: the result depends on the characters alone,
/// and on ASCII text it replaces each capital letter by its small letter.
#[verifier::external_body]
fn lowercase(s: &str) -> (r: String)
    ensures
        r@ == lower_of(s@),
        is_ascii_text(s@) ==> ascii_folded(s@, r@),
{
    s.to_lowercase()
}

/// Rewrites the synonyms of an already lower-cased extension to their
/// canonical spelling.
pub open spec fn canonical_extension(s: Seq<char>) -> Seq<char> {
    if s == "jpeg"@ {
        "jpg"@
    } else if s == "tiff"@ {
        "tif"@
    } else {
        s
    }
}

/// The normalized form of an extension: lower-cased, synonyms rewritten.
pub open spec fn normalized_extension(ext: Seq<char>) -> Seq<char> {
    canonical_extension(lower_of(ext))
}

/// True when `s` holds no ASCII capital letter.
pub open spec fn has_no_capitals(s: Seq<char>) -> bool {
    forall|i: int| 0 <= i < s.len() ==> !is_ascii_upper(#[trigger] s[i])
}

/// What normalizing `ext` gives: its lower-cased form with synonyms
/// rewritten; on ASCII text the lower-casing folds each capital letter to its
/// small letter, so the result is ASCII without capitals, and text that is
/// already without capitals is only rewritten.
pub open spec fn normalizes_to(ext: Seq<char>, r: Seq<char>) -> bool {
    &&& r == normalized_extension(ext)
    &&& is_ascii_text(ext) ==> ascii_folded(ext, lower_of(ext))
    &&& is_ascii_text(ext) ==> r == canonical_extension(lower_of(ext)) && is_ascii_text(r)
        && has_no_capitals(r)
    &&& is_ascii_text(ext) && has_no_capitals(ext) ==> r == canonical_extension(ext)
}

/// The closed list of image extensions.
pub open spec fn is_image_extension(e: Seq<char>) -> bool {
    ||| e == "jpg"@
    ||| e == "png"@
    ||| e == "gif"@
    ||| e == "bmp"@
    ||| e == "tif"@
    ||| e == "webp"@
}

/// The closed list of video extensions.
pub open spec fn is_video_extension(e: Seq<char>) -> bool {
    ||| e == "mp4"@
    ||| e == "mov"@
    ||| e == "mkv"@
}

/// The media type of a normalized extension.
pub open spec fn media_type_of(e: Seq<char>) -> MediaType {
    if is_image_extension(e) {
        MediaType::Image
    } else if is_video_extension(e) {
        MediaType::Video
    } else {
        MediaType::Unknown
    }
}

impl MediaType {
    /// The name of the category, as shown in logs.
    pub fn to_string(&self) -> (r: String)
        ensures
            r@ == match self {
                MediaType::Image => "Image"@,
                MediaType::Video => "Video"@,
                MediaType::Unknown => "Unknown"@,
            },
    {
        match self {
            MediaType::Image => owned("Image"),
            MediaType::Video => owned("Video"),
            MediaType::Unknown => owned("Unknown"),
        }
    }
}

/// Rewrites an extension that is already lower case to its canonical spelling.
pub fn canonicalize_extension(lowered: String) -> (r: String)
    ensures
        r@ == canonical_extension(lowered@),
{
    if text_eq(lowered.as_str(), "jpeg") {
        owned("jpg")
    } else if text_eq(lowered.as_str(), "tiff") {
        owned("tif")
    } else {
        lowered
    }
}

/// Lower-cases an extension and rewrites known synonyms (`jpeg`, `tiff`) to
/// their canonical three-letter form.
pub fn normalize_extension(ext: &str) -> (r: String)
    ensures
        normalizes_to(ext@, r@),
{
    let lowered = lowercase(ext);
    proof {
        if is_ascii_text(ext@) {
            lemma_fold_result_small(ext@, lowered@);
            lemma_canonical_keeps_small_ascii(lowered@);
            if has_no_capitals(ext@) {
                lemma_fold_without_capitals(ext@, lowered@);
            }
        }
    }
    canonicalize_extension(lowered)
}

/// Classifies a normalized extension against the closed image and video lists.
pub fn get_mediatype(extension: String) -> (r: MediaType)
    ensures
        r == media_type_of(extension@),
{
    let e = extension.as_str();
    if text_eq(e, "jpg") || text_eq(e, "png") || text_eq(e, "gif") || text_eq(e, "bmp")
        || text_eq(e, "tif") || text_eq(e, "webp") {
        MediaType::Image
    } else if text_eq(e, "mp4") || text_eq(e, "mov") || text_eq(e, "mkv") {
        MediaType::Video
    } else {
        MediaType::Unknown
    }
}

/// The canonical spellings are ASCII and hold no capital letter.
proof fn lemma_canonical_keeps_small_ascii(s: Seq<char>)
    requires
        is_ascii_text(s),
        has_no_capitals(s),
    ensures
        is_ascii_text(canonical_extension(s)),
        has_no_capitals(canonical_extension(s)),
{
    reveal_strlit("jpeg");
    reveal_strlit("jpg");
    reveal_strlit("tiff");
    reveal_strlit("tif");
}

/// Folding ASCII text that has no capital letter leaves it as it is.
proof fn lemma_fold_without_capitals(s: Seq<char>, r: Seq<char>)
    requires
        ascii_folded(s, r),
        has_no_capitals(s),
    ensures
        r == s,
{
    assert(r =~= s);
}

/// Folding ASCII text leaves ASCII text without capital letters.
proof fn lemma_fold_result_small(s: Seq<char>, r: Seq<char>)
    requires
        is_ascii_text(s),
        ascii_folded(s, r),
    ensures
        is_ascii_text(r),
        has_no_capitals(r),
{
    assert forall|i: int| 0 <= i < r.len() implies (r[i] as u32) < 128 && !is_ascii_upper(
        r[i],
    ) by {
        assert(r[i] == ascii_small(s[i]));
    }
}

/// Normalizing an ASCII extension twice gives what normalizing it once gives:
/// `once` is the normalized `ext`, `twice` the normalized `once`.
pub proof fn lemma_normalize_idempotent(ext: Seq<char>, once: Seq<char>, twice: Seq<char>)
    requires
        is_ascii_text(ext),
        normalizes_to(ext, once),
        normalizes_to(once, twice),
    ensures
        twice == once,
{
    reveal_strlit("jpeg");
    reveal_strlit("jpg");
    reveal_strlit("tiff");
    reveal_strlit("tif");
}

} // verus!
