use pfm::folders::{
    check_folder_move, child_folder_ids, find_folder, get_breadcrumb_path, get_folder_contents,
    is_folder_id, parent_id_of, try_check_folder_move, try_get_breadcrumb_path, walk_ends_within,
    walk_settles_within, FolderMoveRefusal,
};
use pfm::models::{FileInfo, FolderInfo};

fn folder(id: i64, name: &str, parent: Option<i64>) -> FolderInfo {
    FolderInfo { folder_id: id, name: name.to_string(), parent_id: parent, created_at: 100 + id }
}

fn tree() -> Vec<FolderInfo> {
    // 1 root; 2, 3 under 1; 4 under 2; 5 under 4
    vec![
        folder(1, "根目录", None),
        folder(2, "docs", Some(1)),
        folder(3, "music", Some(1)),
        folder(4, "work", Some(2)),
        folder(5, "old", Some(4)),
    ]
}

fn file(id: i64, name: &str) -> FileInfo {
    FileInfo {
        file_id: id,
        name: name.to_string(),
        ext: Some("txt".to_string()),
        mime_type: Some("text/plain".to_string()),
        size_bytes: 10 * id,
        width: None,
        height: None,
        category: Some("doc".to_string()),
        thumbnail_path: None,
        created_at: 1,
        updated_at: 2 + id,
    }
}

#[test]
fn lookups() {
    let fs = tree();
    assert_eq!(find_folder(&fs, 4), Some(3));
    assert_eq!(find_folder(&fs, 9), None);
    assert!(is_folder_id(&fs, 3));
    assert!(!is_folder_id(&fs, 42));
    assert_eq!(parent_id_of(&fs, 4), Some(2));
    assert_eq!(parent_id_of(&fs, 1), None);
    assert_eq!(parent_id_of(&fs, 9), None);
    assert_eq!(child_folder_ids(&fs, 1), vec![2, 3]);
    assert_eq!(child_folder_ids(&fs, 5), Vec::<i64>::new());
}

#[test]
fn contents_list_subfolders_then_files() {
    let fs = tree();
    let files = vec![file(10, "a.txt"), file(11, "b.txt")];
    let c = get_folder_contents(&fs, &files, 1);
    let ids: Vec<i64> = c.items.iter().map(|i| i.id).collect();
    assert_eq!(ids, vec![2, 3, 10, 11]);
    assert!(c.items[0].is_folder && c.items[1].is_folder);
    assert!(!c.items[2].is_folder);
    assert_eq!(c.items[0].size_bytes, 0);
    assert_eq!(c.items[0].updated_at, 102);
    assert_eq!(c.items[3].size_bytes, 110);
    assert_eq!(c.items[3].updated_at, 13);
    assert_eq!(c.items[2].category.as_deref(), Some("doc"));
}

#[test]
fn breadcrumb_runs_from_root_to_folder() {
    let fs = tree();
    let path = get_breadcrumb_path(&fs, 5);
    let ids: Vec<i64> = path.iter().map(|b| b.id).collect();
    assert_eq!(ids, vec![1, 2, 4, 5]);
    assert_eq!(path[0].name, "根目录");
    assert_eq!(path[3].name, "old");
    assert!(get_breadcrumb_path(&fs, 77).is_empty());
}

#[test]
fn move_checks() {
    let fs = tree();
    assert!(matches!(check_folder_move(&fs, 9, Some(1)), Err(FolderMoveRefusal::FolderNotFound)));
    assert!(matches!(check_folder_move(&fs, 2, Some(2)), Err(FolderMoveRefusal::IntoItself)));
    assert!(matches!(check_folder_move(&fs, 2, Some(5)), Err(FolderMoveRefusal::IntoDescendant)));
    assert!(matches!(check_folder_move(&fs, 4, Some(3)), Ok(3)));
    assert!(matches!(check_folder_move(&fs, 4, None), Ok(3)));
    assert_eq!(FolderMoveRefusal::IntoDescendant.message(), "不能将文件夹移动到其子文件夹中");
    assert_eq!(FolderMoveRefusal::IntoItself.message(), "不能将文件夹移动到自身");
    assert_eq!(FolderMoveRefusal::FolderNotFound.message(), "文件夹不存在");
}

#[test]
fn accepted_move_keeps_every_path_finite() {
    let mut fs = tree();
    let idx = check_folder_move(&fs, 2, Some(3)).ok().unwrap();
    fs[idx].parent_id = Some(3);
    let ids: Vec<i64> = get_breadcrumb_path(&fs, 5).iter().map(|b| b.id).collect();
    assert_eq!(ids, vec![1, 3, 2, 4, 5]);
}

fn looped() -> Vec<FolderInfo> {
    // 7 and 8 are each other's parent; 9 hangs below 8; 1 is a root
    vec![
        folder(1, "根目录", None),
        folder(7, "a", Some(8)),
        folder(8, "b", Some(7)),
        folder(9, "c", Some(8)),
    ]
}

#[test]
fn walks_end_or_not() {
    let fs = tree();
    assert!(walk_ends_within(&fs, Some(5), 4));
    assert!(!walk_ends_within(&fs, Some(5), 3));
    assert!(walk_ends_within(&fs, None, 0));
    assert!(walk_ends_within(&fs, Some(42), 0));
    let lp = looped();
    assert!(!walk_ends_within(&lp, Some(9), 100));
    assert!(walk_settles_within(&fs, Some(5), 2, 2));
    assert!(!walk_settles_within(&fs, Some(5), 2, 1));
    assert!(walk_settles_within(&lp, Some(9), 8, 1));
    assert!(!walk_settles_within(&lp, Some(9), 1, 50));
}

#[test]
fn breadcrumb_of_a_looped_folder_is_refused() {
    let lp = looped();
    assert!(try_get_breadcrumb_path(&lp, 9).is_none());
    assert!(try_get_breadcrumb_path(&lp, 7).is_none());
    let root = try_get_breadcrumb_path(&lp, 1).unwrap();
    assert_eq!(root.len(), 1);
    assert_eq!(root[0].name, "根目录");
    assert!(try_get_breadcrumb_path(&lp, 3).unwrap().is_empty());
    let ids: Vec<i64> =
        try_get_breadcrumb_path(&tree(), 4).unwrap().iter().map(|b| b.id).collect();
    assert_eq!(ids, vec![1, 2, 4]);
}

#[test]
fn move_check_into_a_loop_gives_no_verdict() {
    let lp = looped();
    assert!(try_check_folder_move(&lp, 1, Some(9)).is_none());
    assert!(matches!(
        try_check_folder_move(&lp, 7, Some(9)),
        Some(Err(FolderMoveRefusal::IntoDescendant))
    ));
    assert!(matches!(try_check_folder_move(&lp, 9, Some(1)), Some(Ok(3))));
    assert!(matches!(
        try_check_folder_move(&lp, 1, Some(1)),
        Some(Err(FolderMoveRefusal::IntoItself))
    ));
    assert!(matches!(
        try_check_folder_move(&lp, 5, Some(9)),
        Some(Err(FolderMoveRefusal::FolderNotFound))
    ));
    assert!(matches!(try_check_folder_move(&tree(), 4, Some(3)), Some(Ok(3))));
}

#[test]
fn a_batch_checked_against_one_list_keeps_every_path_finite() {
    // move 4, 5, 1 (the target's ancestor), 2 and 3 (the target) under 3, each checked
    // against the list read first
    let before = tree();
    let mut fs = tree();
    let mut moved = Vec::new();
    for id in [4i64, 5, 1, 2, 3] {
        if let Some(Ok(idx)) = try_check_folder_move(&before, id, Some(3)) {
            fs[idx].parent_id = Some(3);
            moved.push(id);
        }
    }
    assert_eq!(moved, vec![4, 5, 2]);
    for f in &fs {
        assert!(try_get_breadcrumb_path(&fs, f.folder_id).is_some());
    }
    let ids: Vec<i64> = get_breadcrumb_path(&fs, 5).iter().map(|b| b.id).collect();
    assert_eq!(ids, vec![1, 3, 5]);
}
