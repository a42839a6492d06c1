use pfm::checks::{
    chunk_past_end, free_space_overlap_issue, integrity_issue, integrity_report, orphan_chunks_issue,
    orphan_files_issue, orphan_thumbnails_issue, required_tables, unreadable_chunks_issue,
    used_bytes_issue,
};

#[test]
fn required_tables_in_order() {
    assert_eq!(
        required_tables(),
        vec!["files", "folders", "file_folder", "chunk_locations", "store_files", "thumbnail_index", "free_space", "db_properties"]
    );
}

#[test]
fn sound_database_reports_nothing() {
    let (valid, details) = integrity_report("ok", &vec![true; 8], 0);
    assert!(valid);
    assert!(details.is_empty());
}

#[test]
fn failed_sqlite_check_reports_only_that() {
    let (valid, details) = integrity_report("row 3 missing", &vec![], 5);
    assert!(!valid);
    assert_eq!(details, vec!["SQLite完整性检查失败: row 3 missing".to_string()]);
}

#[test]
fn missing_tables_and_orphans_are_listed() {
    let mut exists = vec![true; 8];
    exists[1] = false;
    exists[6] = false;
    let (valid, details) = integrity_report("ok", &exists, 3);
    assert!(!valid);
    assert_eq!(
        details,
        vec!["缺少表: folders".to_string(), "缺少表: free_space".to_string(), "发现 3 条孤儿分片记录".to_string()]
    );
}

#[test]
fn repair_issues() {
    assert_eq!(integrity_issue("ok"), None);
    assert_eq!(integrity_issue("bad"), Some("SQLite完整性检查失败: bad".to_string()));
    assert_eq!(orphan_files_issue(0), None);
    assert_eq!(orphan_files_issue(2), Some("发现 2 条孤儿文件记录（files中有但file_folder中无关联）".to_string()));
    assert_eq!(orphan_chunks_issue(1), Some("发现 1 条孤儿分片记录（chunk_locations中有但files中无对应文件）".to_string()));
    assert_eq!(orphan_thumbnails_issue(4), Some("发现 4 条孤儿缩略图记录".to_string()));
    assert_eq!(free_space_overlap_issue(6), Some("发现 6 对重叠的空闲空间记录".to_string()));
    assert_eq!(unreadable_chunks_issue(-1), Some("发现 -1 个不可读分片".to_string()));
    assert_eq!(used_bytes_issue("store_001.bin", 10, 12), "store_file store_001.bin used_bytes不一致: 记录=10, 实际=12");
}

#[test]
fn chunk_bounds() {
    assert!(!chunk_past_end(10, 5, 15));
    assert!(chunk_past_end(10, 6, 15));
}
