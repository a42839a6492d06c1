//! The findings of the database checks: the integrity report of a
//! connected database and the issues that the repair tool lists.
use vstd::prelude::*;

use crate::text::{int_text, push_int, same_text};

verus! {

/// The tables that a sound database has.
pub open spec fn required_table_names() -> Seq<Seq<char>> {
    seq![
        "files"@,
        "folders"@,
        "file_folder"@,
        "chunk_locations"@,
        "store_files"@,
        "thumbnail_index"@,
        "free_space"@,
        "db_properties"@,
    ]
}

/// The tables that a sound database has, in the order they are checked.
pub fn required_tables() -> (r: Vec<&'static str>)
    ensures
        r@.map_values(|s: &str| s@) == required_table_names(),
{
    let r = vec![
        "files",
        "folders",
        "file_folder",
        "chunk_locations",
        "store_files",
        "thumbnail_index",
        "free_space",
        "db_properties",
    ];
    assert(r@.map_values(|s: &str| s@) =~= required_table_names());
    r
}

/// The line reporting a failed SQLite integrity check.
pub open spec fn integrity_failure_line(integrity: Seq<char>) -> Seq<char> {
    "SQLite完整性检查失败: "@ + integrity
}

/// The line reporting a missing table.
pub open spec fn missing_table_line(table: Seq<char>) -> Seq<char> {
    "缺少表: "@ + table
}

/// The line reporting chunk records whose file is gone.
pub open spec fn orphan_chunks_line(n: int) -> Seq<char> {
    "发现 "@ + int_text(n) + " 条孤儿分片记录"@
}

/// One line per table that is reported missing, in order.
pub open spec fn missing_table_lines(names: Seq<Seq<char>>, exists: Seq<bool>) -> Seq<Seq<char>>
    decreases exists.len(),
{
    if exists.len() == 0 {
        Seq::empty()
    } else {
        let rest = missing_table_lines(names, exists.drop_last());
        if exists.last() {
            rest
        } else {
            rest.push(missing_table_line(names[exists.len() - 1]))
        }
    }
}

/// The problems an integrity check reports: the SQLite verdict when it is
/// not `ok`, and otherwise each missing table and the orphaned chunk
/// records, if any.
pub open spec fn integrity_details(integrity: Seq<char>, exists: Seq<bool>, orphan_chunks: int) -> Seq<
    Seq<char>,
> {
    if integrity != "ok"@ {
        seq![integrity_failure_line(integrity)]
    } else {
        missing_table_lines(required_table_names(), exists) + if orphan_chunks > 0 {
            seq![orphan_chunks_line(orphan_chunks)]
        } else {
            Seq::empty()
        }
    }
}

/// The verdict of an integrity check from what was read: the SQLite
/// integrity verdict, whether each required table exists (in the order of
/// `required_tables`), and the number of orphaned chunk records. The table
/// and orphan findings are only read when the SQLite verdict is `ok`. The
/// database is sound exactly when there is nothing to report.
pub fn integrity_report(integrity: &str, table_exists: &Vec<bool>, orphan_chunks: i64) -> (r: (
    bool,
    Vec<String>,
))
    requires
        integrity@ == "ok"@ ==> table_exists@.len() <= 8,
    ensures
        r.1@.map_values(|s: String| s@) == integrity_details(
            integrity@,
            table_exists@,
            orphan_chunks as int,
        ),
        r.0 <==> r.1@.len() == 0,
{
    let mut details: Vec<String> = Vec::new();
    if !same_text(integrity, "ok") {
        let mut line = "SQLite完整性检查失败: ".to_owned();
        line.append(integrity);
        details.push(line);
        assert(details@.map_values(|s: String| s@) =~= seq![integrity_failure_line(integrity@)]);
        return (false, details);
    }
    let tables = required_tables();
    assert(tables@.len() == 8) by {
        assert(tables@.map_values(|s: &str| s@).len() == required_table_names().len());
    }
    let mut i: usize = 0;
    while i < table_exists.len()
        invariant
            i <= table_exists.len() <= 8,
            tables@.len() == 8,
            tables@.map_values(|s: &str| s@) == required_table_names(),
            details@.map_values(|s: String| s@) == missing_table_lines(
                required_table_names(),
                table_exists@.take(i as int),
            ),
        decreases table_exists.len() - i,
    {
        assert(table_exists@.take(i + 1).drop_last() == table_exists@.take(i as int));
        if !table_exists[i] {
            let mut line = "缺少表: ".to_owned();
            line.append(tables[i]);
            let ghost before = details@;
            details.push(line);
            assert(tables@.map_values(|s: &str| s@)[i as int] == tables@[i as int]@);
            assert(details@.map_values(|s: String| s@) =~= before.map_values(|s: String| s@).push(
                line@,
            ));
        }
        i = i + 1;
    }
    assert(table_exists@.take(table_exists.len() as int) == table_exists@);
    if orphan_chunks > 0 {
        let mut line = "发现 ".to_owned();
        push_int(&mut line, orphan_chunks);
        line.append(" 条孤儿分片记录");
        let ghost before = details@;
        details.push(line);
        assert(details@.map_values(|s: String| s@) =~= before.map_values(|s: String| s@) + seq![
            orphan_chunks_line(orphan_chunks as int),
        ]);
    } else {
        assert(details@.map_values(|s: String| s@) =~= details@.map_values(|s: String| s@)
            + Seq::<Seq<char>>::empty());
    }
    let valid = details.len() == 0;
    (valid, details)
}

// ------------------------------------------------------------ repair tool
/// The issue a counted check reports: nothing when the count is zero, the
/// count between two pieces of text otherwise.
pub open spec fn count_issue(n: int, before: Seq<char>, after: Seq<char>) -> Option<Seq<char>> {
    if n == 0 {
        None
    } else {
        Some(before + int_text(n) + after)
    }
}

/// The optional text of an optional line.
pub open spec fn opt_text(o: Option<String>) -> Option<Seq<char>> {
    match o {
        Some(s) => Some(s@),
        None => None,
    }
}

fn counted(n: i64, before: &str, after: &str) -> (r: Option<String>)
    ensures
        opt_text(r) == count_issue(n as int, before@, after@),
{
    if n == 0 {
        None
    } else {
        let mut line = before.to_owned();
        push_int(&mut line, n);
        line.append(after);
        Some(line)
    }
}

/// The issue of the SQLite integrity check: none when the verdict is `ok`.
pub fn integrity_issue(integrity: &str) -> (r: Option<String>)
    ensures
        opt_text(r) == if integrity@ == "ok"@ {
            None
        } else {
            Some(integrity_failure_line(integrity@))
        },
{
    if same_text(integrity, "ok") {
        None
    } else {
        let mut line = "SQLite完整性检查失败: ".to_owned();
        line.append(integrity);
        Some(line)
    }
}

/// The issue of file records that no folder holds.
pub fn orphan_files_issue(n: i64) -> (r: Option<String>)
    ensures
        opt_text(r) == count_issue(
            n as int,
            "发现 "@,
            " 条孤儿文件记录（files中有但file_folder中无关联）"@,
        ),
{
    counted(n, "发现 ", " 条孤儿文件记录（files中有但file_folder中无关联）")
}

/// The issue of chunk records whose file is gone.
pub fn orphan_chunks_issue(n: i64) -> (r: Option<String>)
    ensures
        opt_text(r) == count_issue(
            n as int,
            "发现 "@,
            " 条孤儿分片记录（chunk_locations中有但files中无对应文件）"@,
        ),
{
    counted(n, "发现 ", " 条孤儿分片记录（chunk_locations中有但files中无对应文件）")
}

/// The issue of thumbnail records whose file is gone.
pub fn orphan_thumbnails_issue(n: i64) -> (r: Option<String>)
    ensures
        opt_text(r) == count_issue(n as int, "发现 "@, " 条孤儿缩略图记录"@),
{
    counted(n, "发现 ", " 条孤儿缩略图记录")
}

/// The issue of free-space records that overlap in pairs.
pub fn free_space_overlap_issue(n: i64) -> (r: Option<String>)
    ensures
        opt_text(r) == count_issue(n as int, "发现 "@, " 对重叠的空闲空间记录"@),
{
    counted(n, "发现 ", " 对重叠的空闲空间记录")
}

/// The issue of chunks that cannot be read back.
pub fn unreadable_chunks_issue(n: i64) -> (r: Option<String>)
    ensures
        opt_text(r) == count_issue(n as int, "发现 "@, " 个不可读分片"@),
{
    counted(n, "发现 ", " 个不可读分片")
}

/// The issue of a store file whose recorded use differs from the chunks in
/// it.
pub fn used_bytes_issue(store_file: &str, recorded: i64, actual: i64) -> (r: String)
    ensures
        r@ == "store_file "@ + store_file@ + " used_bytes不一致: 记录="@ + int_text(recorded as int)
            + ", 实际="@ + int_text(actual as int),
{
    let mut line = "store_file ".to_owned();
    line.append(store_file);
    line.append(" used_bytes不一致: 记录=");
    push_int(&mut line, recorded);
    line.append(", 实际=");
    push_int(&mut line, actual);
    line
}

/// Whether a chunk reaches past the end of its store file.
pub fn chunk_past_end(offset: i64, length: i64, file_len: i64) -> (r: bool)
    requires
        i64::MIN <= offset + length <= i64::MAX,
    ensures
        r == (offset + length > file_len),
{
    offset + length > file_len
}

} // verus!
