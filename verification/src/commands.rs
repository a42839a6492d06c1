//! The messages and small decisions of the file manager's commands: what a
//! refused rename or move says, and how a failed batch item is reported.
use vstd::prelude::*;

use crate::folders::{refusal_text, FolderMoveRefusal};
use crate::text::{int_text, push_int};

verus! {

/// The refusal of a name already taken by a folder of the same parent.
pub fn folder_name_taken(name: &str) -> (r: String)
    ensures
        r@ == "该文件夹下已存在名为 '"@ + name@ + "' 的文件夹"@,
{
    let mut out = "该文件夹下已存在名为 '".to_owned();
    out.append(name);
    out.append("' 的文件夹");
    out
}

/// The refusal of a name already taken by a file of the same folder.
pub fn file_name_taken(name: &str) -> (r: String)
    ensures
        r@ == "该文件夹下已存在名为 '"@ + name@ + "' 的文件"@,
{
    let mut out = "该文件夹下已存在名为 '".to_owned();
    out.append(name);
    out.append("' 的文件");
    out
}

/// The refusal of a move onto a folder name taken in the target.
pub fn target_folder_name_taken(name: &str) -> (r: String)
    ensures
        r@ == "目标文件夹下已存在名为 '"@ + name@ + "' 的文件夹"@,
{
    let mut out = "目标文件夹下已存在名为 '".to_owned();
    out.append(name);
    out.append("' 的文件夹");
    out
}

/// The refusal of a move onto a file name taken in the target.
pub fn target_file_name_taken(name: &str) -> (r: String)
    ensures
        r@ == "目标文件夹下已存在名为 '"@ + name@ + "' 的文件"@,
{
    let mut out = "目标文件夹下已存在名为 '".to_owned();
    out.append(name);
    out.append("' 的文件");
    out
}

/// The refusal of an operation on a file that is not in the catalogue.
pub fn file_not_found() -> (r: String)
    ensures
        r@ == "文件不存在"@,
{
    "文件不存在".to_owned()
}

/// What a batch operation did to one item.
pub enum BatchAction {
    DeleteFolder,
    DeleteFile,
    MoveFolder,
    MoveFile,
}

/// The verb and noun of a batch action, as its failure report words them.
pub open spec fn action_words(a: BatchAction) -> Seq<char> {
    match a {
        BatchAction::DeleteFolder => "删除文件夹 "@,
        BatchAction::DeleteFile => "删除文件 "@,
        BatchAction::MoveFolder => "移动文件夹 "@,
        BatchAction::MoveFile => "移动文件 "@,
    }
}

/// The report of a batch item whose operation failed: the action, the
/// item's id, and the error.
pub fn batch_failure(action: BatchAction, id: i64, error: &str) -> (r: String)
    ensures
        r@ == action_words(action) + int_text(id as int) + " 失败: "@ + error@,
{
    let mut out = match action {
        BatchAction::DeleteFolder => "删除文件夹 ".to_owned(),
        BatchAction::DeleteFile => "删除文件 ".to_owned(),
        BatchAction::MoveFolder => "移动文件夹 ".to_owned(),
        BatchAction::MoveFile => "移动文件 ".to_owned(),
    };
    push_int(&mut out, id);
    out.append(" 失败: ");
    out.append(error);
    out
}

/// The report of an entry that could not be imported: its path and the
/// error.
pub fn import_failure(path: &str, error: &str) -> (r: String)
    ensures
        r@ == path@ + ": "@ + error@,
{
    let mut out = path.to_owned();
    out.append(": ");
    out.append(error);
    out
}

/// The report of a directory whose folder could not be created.
pub fn folder_creation_failure(dir_name: &str, error: &str) -> (r: String)
    ensures
        r@ == "创建文件夹 "@ + dir_name@ + " 失败: "@ + error@,
{
    let mut out = "创建文件夹 ".to_owned();
    out.append(dir_name);
    out.append(" 失败: ");
    out.append(error);
    out
}

/// The report of a directory that could not be read.
pub fn directory_read_failure(dir: &str, error: &str) -> (r: String)
    ensures
        r@ == "读取目录 "@ + dir@ + " 失败: "@ + error@,
{
    let mut out = "读取目录 ".to_owned();
    out.append(dir);
    out.append(" 失败: ");
    out.append(error);
    out
}

/// The folder name an imported directory gets: its own name, or
/// `imported_folder` when it has none that is text.
pub fn imported_folder_name(dir_name: Option<&str>) -> (r: String)
    ensures
        r@ == match dir_name {
            Some(n) => n@,
            None => "imported_folder"@,
        },
{
    match dir_name {
        Some(n) => n.to_owned(),
        None => "imported_folder".to_owned(),
    }
}

/// The text shown where walking up from a folder never reaches a root.
pub open spec fn looped_tree_text() -> Seq<char> {
    "文件夹层级存在循环"@
}

/// The refusal of an operation on a folder table whose parent links loop.
pub fn looped_tree() -> (r: String)
    ensures
        r@ == looped_tree_text(),
{
    "文件夹层级存在循环".to_owned()
}

/// What a batch move does next with a folder.
pub enum MoveStep {
    /// Stop the whole batch with this error.
    Abort(String),
    /// Count the folder as failed, with this message, and go on.
    Fail(String),
    /// Go on to the name check of the folder at this index.
    Proceed(usize),
}

/// The next step for a folder of a batch move, from the verdict of the
/// move check: no verdict (the target's ancestors loop) stops the batch, a
/// refusal counts the folder as failed with the refusal's message, and an
/// accepted move goes on.
pub fn folder_move_step(verdict: Option<Result<usize, FolderMoveRefusal>>) -> (r: MoveStep)
    ensures
        match verdict {
            None => r matches MoveStep::Abort(m) && m@ == looped_tree_text(),
            Some(Err(f)) => r matches MoveStep::Fail(m) && m@ == refusal_text(f),
            Some(Ok(i)) => r == MoveStep::Proceed(i),
        },
{
    match verdict {
        None => MoveStep::Abort(looped_tree()),
        Some(Err(f)) => MoveStep::Fail(f.message()),
        Some(Ok(i)) => MoveStep::Proceed(i),
    }
}

/// The outcome of a batch item from the result of its operation: a success,
/// or a failure reported with the action, the id and the error.
pub fn operation_outcome(action: BatchAction, id: i64, result: Result<(), String>) -> (r: Result<
    (),
    String,
>)
    ensures
        match result {
            Ok(()) => r is Ok,
            Err(e) => r matches Err(m) && m@ == action_words(action) + int_text(id as int) + " 失败: "@
                + e@,
        },
{
    match result {
        Ok(()) => Ok(()),
        Err(e) => Err(batch_failure(action, id, e.as_str())),
    }
}

/// The outcome of a batch item whose name is checked in the target: taken,
/// it fails with the given refusal; free, it goes on.
pub fn name_check_outcome(taken: bool, refusal: String) -> (r: Option<String>)
    ensures
        taken ==> r == Some(refusal),
        !taken ==> r is None,
{
    if taken {
        Some(refusal)
    } else {
        None
    }
}

} // verus!
