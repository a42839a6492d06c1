//! Image thumbnails: the image is decoded with its format recognised from
//! the content, scaled to fit a square, and encoded as WebP; a failure is
//! reported with the stage it happened at.
use std::io::Cursor;
use vstd::prelude::*;

verus! {

/// Why a thumbnail could not be made, with the image library's message.
pub enum ThumbnailFailure {
    /// The bytes could not be read as an image.
    Decode(String),
    /// The thumbnail could not be encoded or written.
    Save(String),
}

/// The mathematical form of a failure.
pub enum ThumbnailFailureView {
    Decode(Seq<char>),
    Save(Seq<char>),
}

impl View for ThumbnailFailure {
    type V = ThumbnailFailureView;

    open spec fn view(&self) -> ThumbnailFailureView {
        match self {
            ThumbnailFailure::Decode(m) => ThumbnailFailureView::Decode(m@),
            ThumbnailFailure::Save(m) => ThumbnailFailureView::Save(m@),
        }
    }
}

/// The longest side of a thumbnail, in pixels.
pub const THUMBNAIL_SIDE: u32 = 256;

/// What the `image` crate makes of image bytes, with the format recognised
/// by its built-in magic bytes: the WebP encoding of the decoded image
/// scaled to fit a `side` by `side` square, or the failed stage with the
/// crate's message.
pub uninterp spec fn webp_thumbnail_of(image: Seq<u8>, side: u32) -> Result<Seq<u8>, ThumbnailFailureView>;

/// Calls `image::guess_format` on the bytes (the crate's table of magic
/// bytes), `ImageReader::with_format(..).decode()` with the format found,
/// `DynamicImage::thumbnail(side, side)` and `write_to` with the WebP
/// format. No hook that other code can register is consulted: a built-in
/// format is given to the reader, so it neither guesses nor looks up a
/// decoder by extension. Claimed: the outcome depends on the bytes and the
/// side alone; an unknown format or a decoder error is reported as
/// `Decode`, an encoder error as `Save`, each with the error's text.
/// Nothing is stated of the pixels.
#[verifier::external_body]
fn encode_thumbnail(image: &[u8], side: u32) -> (r: Result<Vec<u8>, ThumbnailFailure>)
    ensures
        webp_thumbnail_of(image@, side) == match r {
            Ok(v) => Ok(v@),
            Err(e) => Err(e@),
        },
{
    let format = match image::guess_format(image) {
        Ok(format) => format,
        Err(e) => return Err(ThumbnailFailure::Decode(e.to_string())),
    };
    let img = match image::ImageReader::with_format(Cursor::new(image), format).decode() {
        Ok(img) => img,
        Err(e) => return Err(ThumbnailFailure::Decode(e.to_string())),
    };
    let mut out = Cursor::new(Vec::new());
    match img.thumbnail(side, side).write_to(&mut out, image::ImageFormat::WebP) {
        Ok(()) => Ok(out.into_inner()),
        Err(e) => Err(ThumbnailFailure::Save(e.to_string())),
    }
}

/// The WebP thumbnail of image bytes, at most `THUMBNAIL_SIDE` pixels on a
/// side.
pub fn make_thumbnail(image: &[u8]) -> (r: Result<Vec<u8>, ThumbnailFailure>)
    ensures
        webp_thumbnail_of(image@, THUMBNAIL_SIDE) == match r {
            Ok(v) => Ok(v@),
            Err(e) => Err(e@),
        },
{
    encode_thumbnail(image, THUMBNAIL_SIDE)
}

/// The report of a failure, by stage.
pub open spec fn failure_text(f: ThumbnailFailureView) -> Seq<char> {
    match f {
        ThumbnailFailureView::Decode(m) => "image decode failed: "@ + m,
        ThumbnailFailureView::Save(m) => "save webp failed: "@ + m,
    }
}

/// The message for a thumbnail that could not be made: the stage, then the
/// image library's (or the file system's) message.
pub fn thumbnail_failure_text(f: &ThumbnailFailure) -> (r: String)
    ensures
        r@ == failure_text(f@),
{
    match f {
        ThumbnailFailure::Decode(m) => {
            let mut out = "image decode failed: ".to_owned();
            out.append(m.as_str());
            out
        },
        ThumbnailFailure::Save(m) => {
            let mut out = "save webp failed: ".to_owned();
            out.append(m.as_str());
            out
        },
    }
}

} // verus!
