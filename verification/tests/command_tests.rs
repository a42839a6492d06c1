use pfm::commands::{folder_move_step, looped_tree, name_check_outcome, operation_outcome, MoveStep};
use pfm::folders::FolderMoveRefusal;
use pfm::commands::{
    batch_failure, directory_read_failure, file_name_taken, file_not_found, folder_creation_failure,
    folder_name_taken, import_failure, imported_folder_name, target_file_name_taken,
    target_folder_name_taken, BatchAction,
};
use pfm::models::{BatchResult, DbProperties, ImportResult};

#[test]
fn refusal_messages() {
    assert_eq!(folder_name_taken("a"), "该文件夹下已存在名为 'a' 的文件夹");
    assert_eq!(file_name_taken("b.txt"), "该文件夹下已存在名为 'b.txt' 的文件");
    assert_eq!(target_folder_name_taken("c"), "目标文件夹下已存在名为 'c' 的文件夹");
    assert_eq!(target_file_name_taken("d"), "目标文件夹下已存在名为 'd' 的文件");
    assert_eq!(file_not_found(), "文件不存在");
}

#[test]
fn failure_reports() {
    assert_eq!(batch_failure(BatchAction::DeleteFolder, 3, "busy"), "删除文件夹 3 失败: busy");
    assert_eq!(batch_failure(BatchAction::DeleteFile, 4, "x"), "删除文件 4 失败: x");
    assert_eq!(batch_failure(BatchAction::MoveFolder, -1, "y"), "移动文件夹 -1 失败: y");
    assert_eq!(batch_failure(BatchAction::MoveFile, 10, "z"), "移动文件 10 失败: z");
    assert_eq!(import_failure("/a/b", "gone"), "/a/b: gone");
    assert_eq!(folder_creation_failure("pics", "e"), "创建文件夹 pics 失败: e");
    assert_eq!(directory_read_failure("/pics", "e"), "读取目录 /pics 失败: e");
    assert_eq!(imported_folder_name(Some("pics")), "pics");
    assert_eq!(imported_folder_name(None), "imported_folder");
}

#[test]
fn tallies_keep_one_message_per_failure() {
    let mut b = BatchResult::new();
    b.record_success();
    b.record_failure("one".to_string());
    b.record_failure("two".to_string());
    assert_eq!((b.success_count, b.fail_count), (1, 2));
    assert_eq!(b.errors.len() as i32, b.fail_count);

    let mut i = ImportResult::new();
    i.record_success();
    let mut sub = ImportResult::new();
    sub.record_success();
    sub.record_failure("bad".to_string());
    i.absorb(sub);
    assert_eq!((i.success_count, i.fail_count), (2, 1));
    assert_eq!(i.errors, vec!["bad".to_string()]);
}

#[test]
fn stored_properties_defaults() {
    let p = DbProperties::from_stored(None, None, None, None);
    assert_eq!(p.uuid, "");
    assert_eq!(p.display_name, "");
    assert_eq!(p.db_type, "local");
    assert_eq!(p.password_hash, None);
    let p = DbProperties::from_stored(Some("u".into()), Some("n".into()), Some("cloud".into()), Some("h".into()));
    assert_eq!((p.uuid.as_str(), p.display_name.as_str(), p.db_type.as_str()), ("u", "n", "cloud"));
    assert_eq!(p.password_hash.as_deref(), Some("h"));
}

#[test]
fn a_batch_counts_every_item_once() {
    let outcomes: Vec<Result<(), String>> =
        vec![Ok(()), Err("first".to_string()), Ok(()), Ok(()), Err("second".to_string())];
    let r = BatchResult::from_outcomes(&outcomes);
    assert_eq!(r.success_count, 3);
    assert_eq!(r.fail_count, 2);
    assert_eq!(r.errors, vec!["first".to_string(), "second".to_string()]);
    let empty = BatchResult::from_outcomes(&Vec::new());
    assert_eq!((empty.success_count, empty.fail_count, empty.errors.len()), (0, 0, 0));
}

#[test]
fn batch_move_steps() {
    assert!(matches!(folder_move_step(None), MoveStep::Abort(m) if m == "文件夹层级存在循环"));
    assert!(matches!(
        folder_move_step(Some(Err(FolderMoveRefusal::IntoDescendant))),
        MoveStep::Fail(m) if m == "不能将文件夹移动到其子文件夹中"
    ));
    assert!(matches!(folder_move_step(Some(Ok(4))), MoveStep::Proceed(4)));
    assert_eq!(looped_tree(), "文件夹层级存在循环");
    assert_eq!(operation_outcome(BatchAction::MoveFile, 12, Ok(())), Ok(()));
    assert_eq!(
        operation_outcome(BatchAction::DeleteFolder, 3, Err("locked".to_string())),
        Err("删除文件夹 3 失败: locked".to_string())
    );
    assert_eq!(name_check_outcome(true, "taken".to_string()), Some("taken".to_string()));
    assert_eq!(name_check_outcome(false, "taken".to_string()), None);
}
