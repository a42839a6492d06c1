use pfm::thumbnails::{make_thumbnail, thumbnail_failure_text, ThumbnailFailure, THUMBNAIL_SIDE};
use std::io::Cursor;

fn png_bytes(width: u32, height: u32) -> Vec<u8> {
    let img = image::DynamicImage::new_rgb8(width, height);
    let mut out = Cursor::new(Vec::new());
    img.write_to(&mut out, image::ImageFormat::Png).unwrap();
    out.into_inner()
}

#[test]
fn a_wide_image_is_scaled_to_fit_the_square() {
    let webp = make_thumbnail(&png_bytes(600, 200)).ok().unwrap();
    assert_eq!(image::guess_format(&webp).unwrap(), image::ImageFormat::WebP);
    let back = image::load_from_memory(&webp).unwrap();
    assert_eq!((back.width(), back.height()), (THUMBNAIL_SIDE, 85));
}

#[test]
fn a_tall_image_keeps_its_shape() {
    let webp = make_thumbnail(&png_bytes(100, 400)).ok().unwrap();
    let back = image::load_from_memory(&webp).unwrap();
    assert_eq!((back.width(), back.height()), (64, THUMBNAIL_SIDE));
}

#[test]
fn bytes_that_are_no_image_fail_at_decoding() {
    match make_thumbnail(b"plain text, no picture") {
        Err(f @ ThumbnailFailure::Decode(_)) => {
            assert!(thumbnail_failure_text(&f).starts_with("image decode failed: "));
        }
        _ => panic!("text is not an image"),
    }
}

#[test]
fn failure_texts_name_the_stage() {
    assert_eq!(thumbnail_failure_text(&ThumbnailFailure::Decode("bad".to_string())), "image decode failed: bad");
    assert_eq!(thumbnail_failure_text(&ThumbnailFailure::Save("disk full".to_string())), "save webp failed: disk full");
}
