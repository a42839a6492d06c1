use pfm::sql::{
    chunk_rows, consumed_space_ids, file_name_check_query, folder_name_check_query,
    insert_statement_text, next_store_file_name, place_chunk, search_pattern, space_still_free,
    sql_literal_text, ChunkPlacement,
    SqlValue,
};

fn ints(q: &pfm::sql::SqlQuery) -> Vec<String> {
    q.params
        .iter()
        .map(|p| match p {
            SqlValue::Integer(n) => format!("i{}", n),
            SqlValue::Text(t) => format!("t{}", t),
            SqlValue::Null => "null".to_string(),
        })
        .collect()
}

#[test]
fn file_name_query_with_and_without_exclusion() {
    let q = file_name_check_query(7, "a.txt", None);
    assert_eq!(q.sql, "SELECT COUNT(*) FROM files f JOIN file_folder ff ON f.file_id = ff.file_id WHERE ff.folder_id = ? AND f.name = ?");
    assert_eq!(ints(&q), vec!["i7", "ta.txt"]);
    let q = file_name_check_query(7, "a.txt", Some(3));
    assert!(q.sql.ends_with(" AND f.name = ? AND f.file_id != ?"));
    assert_eq!(ints(&q), vec!["i7", "ta.txt", "i3"]);
}

#[test]
fn folder_name_query_under_parent_or_at_top() {
    let q = folder_name_check_query(Some(2), "x", Some(9));
    assert_eq!(q.sql, "SELECT COUNT(*) FROM folders WHERE parent_id = ? AND name = ? AND folder_id != ?");
    assert_eq!(ints(&q), vec!["i2", "tx", "i9"]);
    let q = folder_name_check_query(None, "x", None);
    assert_eq!(q.sql, "SELECT COUNT(*) FROM folders WHERE parent_id IS NULL AND name = ?");
    assert_eq!(ints(&q), vec!["tx"]);
}

#[test]
fn like_pattern_wraps_keyword() {
    assert_eq!(search_pattern("cat"), "%cat%");
    assert_eq!(search_pattern(""), "%%");
}

#[test]
fn store_file_names_are_zero_padded() {
    assert_eq!(next_store_file_name(0), "store_001.bin");
    assert_eq!(next_store_file_name(9), "store_010.bin");
    assert_eq!(next_store_file_name(98), "store_099.bin");
    assert_eq!(next_store_file_name(999), "store_1000.bin");
}

#[test]
fn literals_quote_and_escape() {
    assert_eq!(sql_literal_text(&SqlValue::Text("it's".to_string())), "'it''s'");
    assert_eq!(sql_literal_text(&SqlValue::Text(String::new())), "''");
    assert_eq!(sql_literal_text(&SqlValue::Integer(-12)), "-12");
    assert_eq!(sql_literal_text(&SqlValue::Null), "NULL");
}

#[test]
fn distinct_texts_give_distinct_literals() {
    let a = sql_literal_text(&SqlValue::Text("a'".to_string()));
    let b = sql_literal_text(&SqlValue::Text("a''".to_string()));
    assert_ne!(a, b);
    let n = sql_literal_text(&SqlValue::Text("NULL".to_string()));
    assert_ne!(n, sql_literal_text(&SqlValue::Null));
}

#[test]
fn insert_statement_joins_values() {
    let row = vec![SqlValue::Integer(1), SqlValue::Text("名".to_string()), SqlValue::Null];
    assert_eq!(insert_statement_text("files", &row), "INSERT INTO files VALUES (1, '名', NULL);");
    assert_eq!(insert_statement_text("t", &vec![]), "INSERT INTO t VALUES ();");
}

#[test]
fn chunk_rows_number_chunks_in_order() {
    let chunks = vec![
        ("store_001.bin".to_string(), 0, 10, 0),
        ("store_002.bin".to_string(), 40, 5, 7),
        ("store_001.bin".to_string(), 10, 3, 9),
    ];
    let rows = chunk_rows(42, &chunks);
    assert_eq!(rows.len(), 3);
    assert_eq!(rows[1].chunk_index, 1);
    assert_eq!(rows[1].file_id, 42);
    assert_eq!(rows[1].store_file, "store_002.bin");
    assert_eq!(rows[1].offset, 40);
    assert_eq!(rows[2].length, 3);
    assert_eq!(consumed_space_ids(&chunks), vec![7, 9]);
}

#[test]
fn a_free_space_is_taken_once() {
    let planned = vec![
        ("store_001.bin".to_string(), 0i64, 10i64, 7i64),
        ("store_001.bin".to_string(), 10, 10, 0),
    ];
    assert!(!space_still_free(7, &planned));
    assert!(space_still_free(8, &planned));
    assert!(space_still_free(7, &Vec::new()));
}

#[test]
fn store_file_names_never_repeat() {
    let names: Vec<String> = (0..2000i64).map(next_store_file_name).collect();
    let mut sorted = names.clone();
    sorted.sort();
    sorted.dedup();
    assert_eq!(sorted.len(), names.len());
    assert_eq!(names[9], "store_010.bin");
    assert_eq!(names[1000], "store_1001.bin");
}

#[test]
fn chunks_go_to_free_space_once() {
    let mut planned: Vec<(String, i64, i64, i64)> = Vec::new();
    match place_chunk(Some((4, "store_002.bin".to_string(), 512)), &planned) {
        ChunkPlacement::Reuse { space_id, store_file, offset } => {
            assert_eq!(space_id, 4);
            assert_eq!(store_file, "store_002.bin");
            assert_eq!(offset, 512);
            planned.push((store_file, offset, 100, space_id));
        }
        ChunkPlacement::Append => panic!("a fresh free space is reused"),
    }
    assert!(matches!(
        place_chunk(Some((4, "store_002.bin".to_string(), 512)), &planned),
        ChunkPlacement::Append
    ));
    assert!(matches!(place_chunk(None, &planned), ChunkPlacement::Append));
    assert!(matches!(place_chunk(Some((0, "s".to_string(), 0)), &planned), ChunkPlacement::Append));
}
