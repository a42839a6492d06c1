use pfm::storage::{categorize_file, get_chunk_size, ChunkCursor, thumbnail_kind, ThumbnailKind};

#[test]
fn categorize_videos_by_size() {
    assert_eq!(categorize_file("mp4", 10), "video_short");
    assert_eq!(categorize_file("MKV", 50 * 1024 * 1024 + 1), "video_long");
    assert_eq!(categorize_file("mov", 50 * 1024 * 1024), "video_short");
}

#[test]
fn categorize_images_and_docs() {
    assert_eq!(categorize_file("JPG", 1), "image");
    assert_eq!(categorize_file("svg", 1), "image");
    assert_eq!(categorize_file("pdf", 1), "doc");
    assert_eq!(categorize_file("", 1), "doc");
}

#[test]
fn chunk_sizes() {
    assert_eq!(get_chunk_size(0), 0);
    assert_eq!(get_chunk_size(100 * 1024 - 1), 100 * 1024 - 1);
    assert_eq!(get_chunk_size(100 * 1024), 64 * 1024);
    assert_eq!(get_chunk_size(50 * 1024 * 1024), 256 * 1024);
}

#[test]
fn cursor_cuts_a_file_into_full_chunks_and_a_tail() {
    let size: i64 = 200 * 1024 + 7;
    let mut c = ChunkCursor::new(size);
    let mut lens = Vec::new();
    while let Some(l) = c.next_chunk() {
        lens.push(l);
    }
    assert_eq!(lens, vec![65536, 65536, 65536, 8199]);
    assert_eq!(lens.iter().sum::<i64>(), size);
}

#[test]
fn thumbnails_by_extension() {
    assert_eq!(thumbnail_kind("PNG"), ThumbnailKind::Image);
    assert_eq!(thumbnail_kind("webm"), ThumbnailKind::Video);
    assert_eq!(thumbnail_kind("svg"), ThumbnailKind::NoThumbnail);
}

use pfm::storage::{new_import_record, numbered_file_name, temp_file_name, thumbnail_file_name, ExportNames};
use pfm::text::{int_to_text, text_with_int};

#[test]
fn import_record_lowercases_and_classifies() {
    let r = new_import_record("Photo.PNG".to_string(), Some("PNG".to_string()), 2048, 1_700_000_123);
    assert_eq!(r.file_id, 0);
    assert_eq!(r.name, "Photo.PNG");
    assert_eq!(r.ext.as_deref(), Some("png"));
    assert_eq!(r.mime_type.as_deref(), Some("image/png"));
    assert_eq!(r.category.as_deref(), Some("image"));
    assert_eq!(r.size_bytes, 2048);
    assert_eq!(r.created_at, 1_700_000_123);
    assert_eq!(r.updated_at, 1_700_000_123);
    let r = new_import_record("README".to_string(), None, 5, 0);
    assert!(r.ext.is_none() && r.mime_type.is_none() && r.category.is_none());
}

#[test]
fn unknown_extension_is_an_octet_stream() {
    let r = new_import_record("x.qqq".to_string(), Some("qqq".to_string()), 5, 9);
    assert_eq!(r.mime_type.as_deref(), Some("application/octet-stream"));
    assert_eq!(r.category.as_deref(), Some("doc"));
}

#[test]
fn temp_names() {
    assert_eq!(temp_file_name(12, "0123abcd-aaaa-4bbb-8ccc-dddddddddddd", "mp4"), "12_0123abcd.mp4");
    assert_eq!(temp_file_name(3, "nohyphen", ""), "3_nohyphen.");
    assert_eq!(temp_file_name(-7, "", "jpg"), "-7_.jpg");
}

#[test]
fn export_and_thumbnail_names() {
    assert_eq!(numbered_file_name("report", "pdf", 2), "report (2).pdf");
    assert_eq!(numbered_file_name("Makefile", "", 1), "Makefile (1)");
    assert_eq!(thumbnail_file_name(99), "99.webp");
}

#[test]
fn decimal_text() {
    assert_eq!(int_to_text(0), "0");
    assert_eq!(int_to_text(-42), "-42");
    assert_eq!(int_to_text(i64::MIN), "-9223372036854775808");
    assert_eq!(int_to_text(i64::MAX), "9223372036854775807");
    assert_eq!(text_with_int("a", 10, "b"), "a10b");
}

#[test]
fn small_files_are_one_chunk_and_empty_files_none() {
    let mut c = ChunkCursor::new(1000);
    assert_eq!(c.next_chunk(), Some(1000));
    assert_eq!(c.next_chunk(), None);
    let mut z = ChunkCursor::new(0);
    assert_eq!(z.next_chunk(), None);
    let mut big = ChunkCursor::new(50 * 1024 * 1024);
    assert_eq!(big.next_chunk(), Some(256 * 1024));
}

#[test]
fn export_names_count_up() {
    let mut names = ExportNames::new("report".to_string(), "pdf".to_string());
    assert_eq!(names.current(), "report (1).pdf");
    names.advance();
    names.advance();
    assert_eq!(names.current(), "report (3).pdf");
    let names = ExportNames::new("Makefile".to_string(), String::new());
    assert_eq!(names.current(), "Makefile (1)");
}

#[test]
fn case_does_not_change_categories() {
    for ext in ["mp4", "JpEg", "webp", "svg", "txt", "MOV"] {
        let upper = ext.to_ascii_uppercase();
        for size in [0i64, 50 * 1024 * 1024, 50 * 1024 * 1024 + 1] {
            assert_eq!(categorize_file(ext, size), categorize_file(&upper, size));
        }
        assert_eq!(thumbnail_kind(ext), thumbnail_kind(&upper));
    }
    assert_eq!(categorize_file("Ico", i64::MIN), "image");
    assert_eq!(categorize_file("WEBM", i64::MAX), "video_long");
}

#[test]
fn case_does_not_change_categories_beyond_ascii() {
    // the Kelvin sign lowers to `k`
    let ext = "m\u{212A}v";
    assert_eq!(categorize_file(ext, 1), "video_short");
    assert_eq!(categorize_file(ext, 1), categorize_file(&ext.to_ascii_uppercase(), 1));
    for ext in ["Ärger", "σς", "ΣmkvΣ", "jpɡ"] {
        assert_eq!(categorize_file(ext, 7), categorize_file(&ext.to_ascii_uppercase(), 7));
        assert_eq!(thumbnail_kind(ext), thumbnail_kind(&ext.to_ascii_uppercase()));
    }
}
