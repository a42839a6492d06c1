//! Storage planning: how a file is cut into chunks, how it is classified,
//! what record the catalogue gets for it, and how the files that storage
//! writes on the side (temporary copies, thumbnails, renamed exports) are
//! named.
use vstd::prelude::*;

use crate::lookup::{first_index, lemma_first_index_at, lemma_first_index_none};
use crate::models::FileInfo;
use crate::text::{int_text, push_int, same_text};

verus! {

// ---------------------------------------------------------------- wrappers
/// What `str::to_lowercase` answers for a text: its lowercase form under the
/// Unicode case mapping.
pub uninterp spec fn lowercase(s: Seq<char>) -> Seq<char>;

/// Whether a character is ASCII.
pub open spec fn is_ascii_char(c: char) -> bool {
    (c as int) < 128
}

/// The ASCII lowercase of a character: `A`..`Z` become `a`..`z`, every
/// other character stays.
pub open spec fn ascii_lower(c: char) -> char {
    if 65 <= (c as int) <= 90 {
        ((c as int) + 32) as char
    } else {
        c
    }
}

/// The ASCII uppercase of a character: `a`..`z` become `A`..`Z`, every
/// other character stays.
pub open spec fn ascii_upper(c: char) -> char {
    if 97 <= (c as int) <= 122 {
        ((c as int) - 32) as char
    } else {
        c
    }
}

/// Whether a text is made of ASCII characters.
pub open spec fn is_ascii_text(s: Seq<char>) -> bool {
    forall|i: int| 0 <= i < s.len() ==> is_ascii_char(#[trigger] s[i])
}

/// A text with its ASCII letters lowered.
pub open spec fn ascii_lowered(s: Seq<char>) -> Seq<char> {
    s.map_values(|c: char| ascii_lower(c))
}

/// A text with its ASCII letters raised.
pub open spec fn ascii_uppered(s: Seq<char>) -> Seq<char> {
    s.map_values(|c: char| ascii_upper(c))
}

/// Calls `str::to_lowercase`. Claimed: the result is the lowercase form of
/// the argument, which depends on the argument alone; on a text made of
/// ASCII characters the Unicode mapping lowers `A`..`Z` to `a`..`z` and
/// keeps every other character, one for one; and raising the ASCII letters
/// of any text first changes nothing, because Unicode lowers `A`..`Z` to
/// the same letters as `a`..`z`, and the one mapping that looks at the
/// neighbours (Greek capital sigma at the end of a word) counts upper and
/// lower ASCII letters alike as cased letters. Nothing else is stated of
/// the mapping beyond ASCII.
#[verifier::external_body]
pub(crate) fn lowercase_text(s: &str) -> (r: String)
    ensures
        r@ == lowercase(s@),
        is_ascii_text(s@) ==> r@ == ascii_lowered(s@),
        r@ == lowercase(ascii_uppered(s@)),
{
    s.to_lowercase()
}

/// What `mime_guess` answers for an extension: the first MIME type that its
/// table lists for it, or `application/octet-stream` when none.
pub uninterp spec fn mime_type_of(ext: Seq<char>) -> Seq<char>;

/// Calls `mime_guess::from_ext(ext).first_or_octet_stream()` and writes the
/// MIME type as text. Claimed: the result depends on the extension alone,
/// and the empty extension, which the crate maps to no type, gives
/// `application/octet-stream`.
#[verifier::external_body]
fn guess_mime_type(ext: &str) -> (r: String)
    ensures
        r@ == mime_type_of(ext@),
        ext@.len() == 0 ==> r@ == "application/octet-stream"@,
{
    mime_guess::from_ext(ext).first_or_octet_stream().to_string()
}

// ---------------------------------------------------------- classification
/// Video extensions (lowercase).
pub open spec fn is_video_ext(e: Seq<char>) -> bool {
    e == "mp4"@ || e == "mkv"@ || e == "avi"@ || e == "mov"@ || e == "wmv"@ || e == "flv"@ || e
        == "webm"@
}

/// Image extensions that the catalogue classifies as images (lowercase).
pub open spec fn is_image_ext(e: Seq<char>) -> bool {
    e == "jpg"@ || e == "jpeg"@ || e == "png"@ || e == "gif"@ || e == "bmp"@ || e == "webp"@ || e
        == "svg"@ || e == "ico"@
}

/// Image extensions that get a picture thumbnail (lowercase).
pub open spec fn is_thumbnail_image_ext(e: Seq<char>) -> bool {
    e == "jpg"@ || e == "jpeg"@ || e == "png"@ || e == "gif"@ || e == "bmp"@ || e == "webp"@
}

/// Videos above this size are long videos.
pub open spec fn long_video_threshold() -> int {
    50int * 1024 * 1024
}

/// The category of a file with a lowercase extension and a size.
pub open spec fn category_of(e: Seq<char>, size: int) -> Seq<char> {
    if is_video_ext(e) {
        if size > long_video_threshold() {
            "video_long"@
        } else {
            "video_short"@
        }
    } else if is_image_ext(e) {
        "image"@
    } else {
        "doc"@
    }
}

fn is_video_lowercase(e: &str) -> (r: bool)
    ensures
        r == is_video_ext(e@),
{
    same_text(e, "mp4") || same_text(e, "mkv") || same_text(e, "avi") || same_text(e, "mov")
        || same_text(e, "wmv") || same_text(e, "flv") || same_text(e, "webm")
}

fn is_thumbnail_image_lowercase(e: &str) -> (r: bool)
    ensures
        r == is_thumbnail_image_ext(e@),
{
    same_text(e, "jpg") || same_text(e, "jpeg") || same_text(e, "png") || same_text(e, "gif")
        || same_text(e, "bmp") || same_text(e, "webp")
}

/// The category of a file whose extension is already lowercase:
/// `video_long` or `video_short` for videos (by size), `image` for images,
/// `doc` for anything else.
pub fn categorize_lowercase(ext_lower: &str, size: i64) -> (r: &'static str)
    ensures
        r@ == category_of(ext_lower@, size as int),
{
    if is_video_lowercase(ext_lower) {
        if size > 50 * 1024 * 1024 {
            "video_long"
        } else {
            "video_short"
        }
    } else if is_thumbnail_image_lowercase(ext_lower) || same_text(ext_lower, "svg") || same_text(
        ext_lower,
        "ico",
    ) {
        "image"
    } else {
        "doc"
    }
}

/// The category of a file from its extension, in any case, and its size.
pub fn categorize_file(ext: &str, size: i64) -> (r: &'static str)
    ensures
        r@ == category_of(lowercase(ext@), size as int),
        is_ascii_text(ext@) ==> r@ == category_of(ascii_lowered(ext@), size as int),
        r@ == category_of(lowercase(ascii_uppered(ext@)), size as int),
{
    let lower = lowercase_text(ext);
    categorize_lowercase(lower.as_str(), size)
}

/// Case does not matter to an ASCII extension: raising its letters keeps
/// it ASCII and lowers back to the same text, so an extension and its
/// uppercase form fall in the same category and get the same thumbnail.
pub proof fn lemma_ascii_case_ignored(e: Seq<char>, size: int)
    requires
        is_ascii_text(e),
    ensures
        is_ascii_text(ascii_uppered(e)),
        ascii_lowered(ascii_uppered(e)) == ascii_lowered(e),
        category_of(ascii_lowered(ascii_uppered(e)), size) == category_of(ascii_lowered(e), size),
        thumbnail_kind_of(ascii_lowered(ascii_uppered(e))) == thumbnail_kind_of(ascii_lowered(e)),
{
    assert forall|i: int| 0 <= i < e.len() implies is_ascii_char(#[trigger] ascii_uppered(e)[i]) by {
        assert(ascii_uppered(e)[i] == ascii_upper(e[i]));
    }
    assert(ascii_lowered(ascii_uppered(e)) =~= ascii_lowered(e)) by {
        assert forall|i: int| 0 <= i < e.len() implies #[trigger] ascii_lowered(ascii_uppered(e))[i]
            == ascii_lowered(e)[i] by {
            let c = e[i];
            assert(ascii_uppered(e)[i] == ascii_upper(c));
        }
    }
}

/// The categories, case by case: `jpg`, `jpeg`, `png`, `gif`, `bmp`,
/// `webp`, `svg` and `ico` are images at any size; `mp4`, `mkv`, `avi`,
/// `mov`, `wmv`, `flv` and `webm` are long videos above 50 MiB and short
/// videos up to it; every other extension is a document.
pub proof fn lemma_categories(e: Seq<char>, size: int)
    ensures
        (e == "jpg"@ || e == "jpeg"@ || e == "png"@ || e == "gif"@ || e == "bmp"@ || e == "webp"@
            || e == "svg"@ || e == "ico"@) <==> category_of(e, size) == "image"@,
        (e == "mp4"@ || e == "mkv"@ || e == "avi"@ || e == "mov"@ || e == "wmv"@ || e == "flv"@ || e
            == "webm"@) && size > 52428800 <==> category_of(e, size) == "video_long"@,
        (e == "mp4"@ || e == "mkv"@ || e == "avi"@ || e == "mov"@ || e == "wmv"@ || e == "flv"@ || e
            == "webm"@) && size <= 52428800 <==> category_of(e, size) == "video_short"@,
        !(e == "jpg"@ || e == "jpeg"@ || e == "png"@ || e == "gif"@ || e == "bmp"@ || e == "webp"@
            || e == "svg"@ || e == "ico"@ || e == "mp4"@ || e == "mkv"@ || e == "avi"@ || e == "mov"@
            || e == "wmv"@ || e == "flv"@ || e == "webm"@) <==> category_of(e, size) == "doc"@,
{
    reveal_strlit("jpg");
    reveal_strlit("jpeg");
    reveal_strlit("png");
    reveal_strlit("gif");
    reveal_strlit("bmp");
    reveal_strlit("webp");
    reveal_strlit("svg");
    reveal_strlit("ico");
    reveal_strlit("mp4");
    reveal_strlit("mkv");
    reveal_strlit("avi");
    reveal_strlit("mov");
    reveal_strlit("wmv");
    reveal_strlit("flv");
    reveal_strlit("webm");
    reveal_strlit("image");
    reveal_strlit("doc");
    reveal_strlit("video_long");
    reveal_strlit("video_short");
    if e.len() >= 2 {
        let key = (e[0], e[1], e[e.len() - 1]);
        assert(key == (e[0], e[1], e[e.len() - 1]));
    }
    let results = ("image"@[0], "doc"@[0], "video_long"@[6], "video_short"@[6]);
    assert(results == ('i', 'd', 'l', 's'));
}

/// The thumbnails, case by case: `jpg`, `jpeg`, `png`, `gif`, `bmp` and
/// `webp` get a picture; `mp4`, `avi`, `mkv`, `mov`, `wmv`, `flv` and
/// `webm` get a video frame; every other extension gets none.
pub proof fn lemma_thumbnail_kinds(e: Seq<char>)
    ensures
        (e == "jpg"@ || e == "jpeg"@ || e == "png"@ || e == "gif"@ || e == "bmp"@ || e == "webp"@)
            <==> thumbnail_kind_of(e) == ThumbnailKind::Image,
        (e == "mp4"@ || e == "avi"@ || e == "mkv"@ || e == "mov"@ || e == "wmv"@ || e == "flv"@ || e
            == "webm"@) <==> thumbnail_kind_of(e) == ThumbnailKind::Video,
        !(e == "jpg"@ || e == "jpeg"@ || e == "png"@ || e == "gif"@ || e == "bmp"@ || e == "webp"@
            || e == "mp4"@ || e == "avi"@ || e == "mkv"@ || e == "mov"@ || e == "wmv"@ || e == "flv"@
            || e == "webm"@) <==> thumbnail_kind_of(e) == ThumbnailKind::NoThumbnail,
{
    reveal_strlit("jpg");
    reveal_strlit("jpeg");
    reveal_strlit("png");
    reveal_strlit("gif");
    reveal_strlit("bmp");
    reveal_strlit("webp");
    reveal_strlit("mp4");
    reveal_strlit("mkv");
    reveal_strlit("avi");
    reveal_strlit("mov");
    reveal_strlit("wmv");
    reveal_strlit("flv");
    reveal_strlit("webm");
    if e.len() >= 2 {
        let key = (e[0], e[1], e[e.len() - 1]);
        assert(key == (e[0], e[1], e[e.len() - 1]));
    }
}

/// Size decides only between short and long videos: images and documents
/// keep their category at any size, and a long video stays long when it is
/// larger.
pub proof fn lemma_category_by_size(e: Seq<char>, s1: int, s2: int)
    ensures
        category_of(e, s1) == "image"@ || category_of(e, s1) == "doc"@ ==> category_of(e, s2)
            == category_of(e, s1),
        category_of(e, s1) == "video_long"@ && s1 <= s2 ==> category_of(e, s2) == "video_long"@,
{
    reveal_strlit("image");
    reveal_strlit("doc");
    reveal_strlit("video_long");
    reveal_strlit("video_short");
}

/// Which thumbnail a file gets.
#[derive(Debug, PartialEq, Eq, Structural)]
pub enum ThumbnailKind {
    /// A scaled-down picture of the image.
    Image,
    /// A frame of the video.
    Video,
    /// No thumbnail.
    NoThumbnail,
}

/// The thumbnail a file with the given lowercase extension gets.
pub open spec fn thumbnail_kind_of(e: Seq<char>) -> ThumbnailKind {
    if is_thumbnail_image_ext(e) {
        ThumbnailKind::Image
    } else if is_video_ext(e) {
        ThumbnailKind::Video
    } else {
        ThumbnailKind::NoThumbnail
    }
}

/// The thumbnail of a file whose extension is already lowercase.
pub fn thumbnail_kind_lowercase(ext_lower: &str) -> (r: ThumbnailKind)
    ensures
        r == thumbnail_kind_of(ext_lower@),
{
    if is_thumbnail_image_lowercase(ext_lower) {
        ThumbnailKind::Image
    } else if is_video_lowercase(ext_lower) {
        ThumbnailKind::Video
    } else {
        ThumbnailKind::NoThumbnail
    }
}

/// The thumbnail an imported file gets, from its extension in any case.
pub fn thumbnail_kind(ext: &str) -> (r: ThumbnailKind)
    ensures
        r == thumbnail_kind_of(lowercase(ext@)),
        is_ascii_text(ext@) ==> r == thumbnail_kind_of(ascii_lowered(ext@)),
        r == thumbnail_kind_of(lowercase(ascii_uppered(ext@))),
{
    let lower = lowercase_text(ext);
    thumbnail_kind_lowercase(lower.as_str())
}

// ------------------------------------------------------------------ chunks
/// A store file takes new chunks while it holds less than 2 GiB.
pub const MAX_STORE_FILE_SIZE: i64 = 2 * 1024 * 1024 * 1024;

/// The chunk size for a file: the whole file below 100 KiB, 64 KiB chunks
/// below 50 MiB, 256 KiB chunks above.
pub open spec fn chunk_size_for(file_size: int) -> int {
    if file_size < 100 * 1024 {
        file_size
    } else if file_size < 50 * 1024 * 1024 {
        64int * 1024
    } else {
        256int * 1024
    }
}

/// The chunk size for a file of the given size.
pub fn get_chunk_size(file_size: i64) -> (r: i64)
    ensures
        r == chunk_size_for(file_size as int),
{
    if file_size < 100 * 1024 {
        file_size
    } else if file_size < 50 * 1024 * 1024 {
        64 * 1024
    } else {
        256 * 1024
    }
}

/// The lengths of the chunks that `remaining` bytes are cut into, `size`
/// bytes at a time: full chunks, then what is left.
pub open spec fn chunk_lengths(size: int, remaining: int) -> Seq<int>
    decreases remaining,
    when size > 0
{
    if remaining <= 0 {
        Seq::empty()
    } else {
        let len = if size < remaining {
            size
        } else {
            remaining
        };
        seq![len] + chunk_lengths(size, remaining - len)
    }
}

/// The sum of a sequence of lengths.
pub open spec fn total(s: Seq<int>) -> int
    decreases s.len(),
{
    if s.len() == 0 {
        0
    } else {
        s[0] + total(s.drop_first())
    }
}

/// The chunks that a file of the given size is cut into.
pub open spec fn file_chunks(file_size: int) -> Seq<int> {
    if file_size <= 0 {
        Seq::empty()
    } else {
        chunk_lengths(chunk_size_for(file_size), file_size)
    }
}

/// The chunks cover the file exactly: their lengths add up to the size of
/// the file, each is positive and at most the chunk size, and all but the
/// last are full chunks.
pub proof fn lemma_chunks_cover(size: int, remaining: int)
    requires
        size > 0,
        remaining >= 0,
    ensures
        total(chunk_lengths(size, remaining)) == remaining,
        forall|k: int|
            0 <= k < chunk_lengths(size, remaining).len() ==> 0 < #[trigger] chunk_lengths(
                size,
                remaining,
            )[k] <= size,
        forall|k: int|
            0 <= k < chunk_lengths(size, remaining).len() - 1 ==> #[trigger] chunk_lengths(
                size,
                remaining,
            )[k] == size,
    decreases remaining,
{
    if remaining > 0 {
        let len = if size < remaining {
            size
        } else {
            remaining
        };
        lemma_chunks_cover(size, remaining - len);
        let rest = chunk_lengths(size, remaining - len);
        let all = chunk_lengths(size, remaining);
        assert(all == seq![len] + rest);
        assert(all.drop_first() == rest);
        assert forall|k: int| 0 < k < all.len() implies #[trigger] all[k] == rest[k - 1] by {}
        if len < size {
            assert(rest.len() == 0);
        }
    }
}

/// Every file is cut into chunks that cover it exactly.
pub proof fn lemma_file_chunks_cover(file_size: int)
    requires
        file_size >= 0,
    ensures
        total(file_chunks(file_size)) == file_size,
        forall|k: int|
            0 <= k < file_chunks(file_size).len() ==> 0 < #[trigger] file_chunks(file_size)[k]
                <= chunk_size_for(file_size),
{
    if file_size > 0 {
        lemma_chunks_cover(chunk_size_for(file_size), file_size);
    }
}

/// Cuts a file into chunks, one at a time, as the import copies it.
pub struct ChunkCursor {
    chunk_size: i64,
    remaining: i64,
}

impl ChunkCursor {
    #[verifier::type_invariant]
    spec fn inv(self) -> bool {
        self.remaining > 0 ==> self.chunk_size > 0
    }

    /// The chunk size in use.
    pub closed spec fn size_spec(self) -> int {
        self.chunk_size as int
    }

    /// The bytes not yet handed out.
    pub closed spec fn remaining_spec(self) -> int {
        self.remaining as int
    }

    /// The chunks still to come.
    pub closed spec fn pending(self) -> Seq<int> {
        if self.remaining <= 0 {
            Seq::empty()
        } else {
            chunk_lengths(self.chunk_size as int, self.remaining as int)
        }
    }

    /// A cursor at the start of a file of the given size.
    pub fn new(file_size: i64) -> (r: ChunkCursor)
        ensures
            r.size_spec() == chunk_size_for(file_size as int),
            r.remaining_spec() == file_size,
            r.pending() == file_chunks(file_size as int),
    {
        ChunkCursor { chunk_size: get_chunk_size(file_size), remaining: file_size }
    }

    /// The length of the next chunk, `None` once the file is used up.
    pub fn next_chunk(&mut self) -> (r: Option<i64>)
        ensures
            final(self).size_spec() == old(self).size_spec(),
            r is None <==> old(self).remaining_spec() <= 0,
            match r {
                Some(len) => old(self).pending() == seq![len as int] + final(self).pending()
                    && final(self).remaining_spec() == old(self).remaining_spec() - len,
                None => final(self).pending() == old(self).pending()
                    && final(self).remaining_spec() == old(self).remaining_spec(),
            },
    {
        proof {
            use_type_invariant(&*self);
        }
        if self.remaining <= 0 {
            return None;
        }
        let len = if self.chunk_size < self.remaining {
            self.chunk_size
        } else {
            self.remaining
        };
        let ghost cs = self.chunk_size as int;
        let ghost rem = self.remaining as int;
        assert(chunk_lengths(cs, rem) == seq![len as int] + chunk_lengths(cs, rem - (len as int)));
        proof {
            if rem - (len as int) <= 0 {
                assert(chunk_lengths(cs, rem - (len as int)) == Seq::<int>::empty());
            }
        }
        self.remaining = self.remaining - len;
        Some(len)
    }
}

// ---------------------------------------------------------------- records
/// The catalogue record of a file being imported: no id yet, its name, its
/// lowercase extension, MIME type and category when it has an extension,
/// its size, no dimensions or thumbnail, created and updated at `now`.
pub open spec fn import_record_spec(
    name: String,
    ext: Option<String>,
    mime_type: Option<String>,
    category: Option<String>,
    size: i64,
    now: i64,
) -> FileInfo {
    FileInfo {
        file_id: 0,
        name,
        ext,
        mime_type,
        size_bytes: size,
        width: None,
        height: None,
        category,
        thumbnail_path: None,
        created_at: now,
        updated_at: now,
    }
}

/// Assembles the catalogue record of a file being imported.
pub fn import_record(
    name: String,
    ext: Option<String>,
    mime_type: Option<String>,
    category: Option<String>,
    size: i64,
    now: i64,
) -> (r: FileInfo)
    ensures
        r == import_record_spec(name, ext, mime_type, category, size, now),
{
    FileInfo {
        file_id: 0,
        name,
        ext,
        mime_type,
        size_bytes: size,
        width: None,
        height: None,
        category,
        thumbnail_path: None,
        created_at: now,
        updated_at: now,
    }
}

/// The catalogue record of a file being imported now, from its name, the
/// extension of its path (in any case) and its size: the extension is kept
/// in lowercase, the MIME type is guessed from it, and the category comes
/// from it and the size.
pub fn new_import_record(name: String, raw_ext: Option<String>, size: i64, now: i64) -> (r: FileInfo)
    ensures
        r.file_id == 0,
        r.name == name,
        r.size_bytes == size,
        r.width is None && r.height is None && r.thumbnail_path is None,
        r.created_at == now && r.updated_at == now,
        match raw_ext {
            None => r.ext is None && r.mime_type is None && r.category is None,
            Some(e) => {
                &&& r.ext matches Some(x) && x@ == lowercase(e@)
                &&& r.mime_type matches Some(m) && m@ == mime_type_of(lowercase(e@))
                &&& r.category matches Some(c) && c@ == category_of(
                    lowercase(lowercase(e@)),
                    size as int,
                )
            },
        },
{
    let (ext, mime_type, category) = match raw_ext {
        Some(e) => {
            let lower = lowercase_text(e.as_str());
            let mime = guess_mime_type(lower.as_str());
            let category = categorize_file(lower.as_str(), size).to_owned();
            (Some(lower), Some(mime), Some(category))
        },
        None => (None, None, None),
    };
    import_record(name, ext, mime_type, category, size, now)
}

// ------------------------------------------------------------------- names
/// The hyphen.
pub open spec fn is_hyphen(x: char) -> bool {
    x == '-'
}

/// The part of a text before its first hyphen; all of it when there is
/// none, as `split('-').next()` gives it.
pub open spec fn segment_before_hyphen(s: Seq<char>) -> Seq<char> {
    match first_index(s, |x: char| is_hyphen(x)) {
        Some(j) => s.take(j),
        None => s,
    }
}

/// The name of the temporary copy of a file: its id, an underscore, the
/// first group of a uuid, a dot and the extension.
pub open spec fn temp_name(file_id: int, uuid: Seq<char>, ext: Seq<char>) -> Seq<char> {
    int_text(file_id) + seq!['_'] + segment_before_hyphen(uuid) + seq!['.'] + ext
}

fn first_segment(s: &str) -> (r: &str)
    ensures
        r@ == segment_before_hyphen(s@),
{
    let n = s.unicode_len();
    let mut i: usize = 0;
    while i < n
        invariant
            i <= n,
            n == s@.len(),
            forall|j: int| 0 <= j < i ==> !is_hyphen(#[trigger] s@[j]),
        decreases n - i,
    {
        if s.get_char(i) == '-' {
            proof {
                lemma_first_index_at(s@, |x: char| is_hyphen(x), i as int);
                assert(s@.subrange(0, i as int) =~= s@.take(i as int));
            }
            return s.substring_char(0, i);
        }
        i = i + 1;
    }
    proof {
        lemma_first_index_none(s@, |x: char| is_hyphen(x));
        assert(s@.subrange(0, n as int) =~= s@);
    }
    s.substring_char(0, n)
}

/// The name of the temporary copy of a file, given the uuid text.
pub fn temp_file_name(file_id: i64, uuid: &str, ext: &str) -> (r: String)
    ensures
        r@ == temp_name(file_id as int, uuid@, ext@),
{
    proof {
        reveal_strlit("_");
        reveal_strlit(".");
    }
    let mut out = String::new();
    push_int(&mut out, file_id);
    out.append("_");
    out.append(first_segment(uuid));
    out.append(".");
    out.append(ext);
    assert(out@ =~= temp_name(file_id as int, uuid@, ext@));
    out
}

/// The name of a numbered copy, `stem (n).ext`, or `stem (n)` without an
/// extension, which an export uses when the name is taken.
pub open spec fn numbered_name(stem: Seq<char>, ext: Seq<char>, counter: int) -> Seq<char> {
    if ext.len() == 0 {
        stem + " ("@ + int_text(counter) + ")"@
    } else {
        stem + " ("@ + int_text(counter) + ")."@ + ext
    }
}

/// The name of the `counter`-th numbered copy of an exported file.
pub fn numbered_file_name(stem: &str, ext: &str, counter: i32) -> (r: String)
    ensures
        r@ == numbered_name(stem@, ext@, counter as int),
{
    let mut out = stem.to_owned();
    out.append(" (");
    push_int(&mut out, counter as i64);
    if ext.is_empty() {
        out.append(")");
    } else {
        out.append(").");
        out.append(ext);
    }
    out
}

/// The names an export tries, in turn, when a file's own name is taken in
/// the target: `stem (1).ext`, `stem (2).ext`, and so on.
pub struct ExportNames {
    pub stem: String,
    pub ext: String,
    pub counter: i32,
}

impl ExportNames {
    /// The first numbered name comes next.
    pub fn new(stem: String, ext: String) -> (r: ExportNames)
        ensures
            r.stem == stem,
            r.ext == ext,
            r.counter == 1,
    {
        ExportNames { stem, ext, counter: 1 }
    }

    /// The name to try now.
    pub fn current(&self) -> (r: String)
        ensures
            r@ == numbered_name(self.stem@, self.ext@, self.counter as int),
    {
        numbered_file_name(self.stem.as_str(), self.ext.as_str(), self.counter)
    }

    /// Moves on to the next name, the one tried now being taken.
    pub fn advance(&mut self)
        requires
            old(self).counter < i32::MAX,
        ensures
            final(self).stem == old(self).stem,
            final(self).ext == old(self).ext,
            final(self).counter == old(self).counter + 1,
    {
        self.counter = self.counter + 1;
    }
}

/// The name of the thumbnail of a file: its id with the `.webp` extension.
pub fn thumbnail_file_name(file_id: i64) -> (r: String)
    ensures
        r@ == int_text(file_id as int) + ".webp"@,
{
    let mut out = String::new();
    push_int(&mut out, file_id);
    out.append(".webp");
    out
}

} // verus!
