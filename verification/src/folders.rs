//! The folder tree: lookups, listings, the path from the root to a folder,
//! and the checks that keep a move from putting a folder inside itself.
//!
//! The folder list is read from the catalogue as it is; a folder is found
//! by the first entry with its id, the way `Iterator::find` finds it.
use vstd::prelude::*;

use crate::lookup::{first_index, lemma_first_index, lemma_first_index_at, lemma_first_index_none};
use vstd::set_lib::{lemma_int_range, lemma_len_subset, set_int_range};
use crate::models::{BreadcrumbItem, FileInfo, FolderContents, FolderContentsItem, FolderInfo, clone_opt_text};

verus! {

/// Whether a folder has the given id.
pub open spec fn has_folder_id(f: FolderInfo, id: i64) -> bool {
    f.folder_id == id
}

/// The index of the first folder with the given id.
pub open spec fn folder_index(fs: Seq<FolderInfo>, id: i64) -> Option<int> {
    first_index(fs, |f: FolderInfo| has_folder_id(f, id))
}

/// The parent of the folder with the given id, if the folder is known and
/// has one.
pub open spec fn parent_of(fs: Seq<FolderInfo>, id: i64) -> Option<i64> {
    match folder_index(fs, id) {
        Some(i) => fs[i].parent_id,
        None => None,
    }
}

/// Walking up from `start` (a folder id, or nothing) reaches a missing
/// parent or an unknown folder within `n` steps.
pub open spec fn walk_ends(fs: Seq<FolderInfo>, start: Option<i64>, n: nat) -> bool
    decreases n,
{
    match start {
        None => true,
        Some(id) => match folder_index(fs, id) {
            None => true,
            Some(i) => n > 0 && walk_ends(fs, fs[i].parent_id, (n - 1) as nat),
        },
    }
}

/// Walking up from `start` ends after finitely many steps.
pub open spec fn walk_terminates(fs: Seq<FolderInfo>, start: Option<i64>) -> bool {
    exists|n: nat| walk_ends(fs, start, n)
}

/// The indices of the folders met walking up from `start`, in the order
/// they are met, for at most `n` steps.
pub open spec fn walk_indices(fs: Seq<FolderInfo>, start: Option<i64>, n: nat) -> Seq<int>
    decreases n,
{
    match start {
        None => Seq::empty(),
        Some(id) => match folder_index(fs, id) {
            None => Seq::empty(),
            Some(i) => if n == 0 {
                Seq::empty()
            } else {
                seq![i] + walk_indices(fs, fs[i].parent_id, (n - 1) as nat)
            },
        },
    }
}

/// The indices of the folders from `id` up to its root, when that walk ends.
pub open spec fn ancestry(fs: Seq<FolderInfo>, id: i64) -> Seq<int> {
    walk_indices(fs, Some(id), choose|n: nat| walk_ends(fs, Some(id), n))
}

/// The path item of a folder.
pub open spec fn crumb(f: FolderInfo) -> BreadcrumbItem {
    BreadcrumbItem { id: f.folder_id, name: f.name }
}

/// The path from the root down to the folder `id`.
pub open spec fn breadcrumb(fs: Seq<FolderInfo>, id: i64) -> Seq<BreadcrumbItem> {
    let a = ancestry(fs, id);
    Seq::new(a.len(), |k: int| crumb(fs[a[a.len() - 1 - k]]))
}

/// Walking up from `start` meets the folder `f` within `n` steps.
pub open spec fn walk_hits(fs: Seq<FolderInfo>, start: Option<i64>, f: i64, n: nat) -> bool
    decreases n,
{
    match start {
        None => false,
        Some(id) => id == f || match folder_index(fs, id) {
            None => false,
            Some(i) => n > 0 && walk_hits(fs, fs[i].parent_id, f, (n - 1) as nat),
        },
    }
}

/// Walking up from `start` ends within `n` steps without meeting `f`.
pub open spec fn walk_avoids(fs: Seq<FolderInfo>, start: Option<i64>, f: i64, n: nat) -> bool
    decreases n,
{
    match start {
        None => true,
        Some(id) => id != f && match folder_index(fs, id) {
            None => true,
            Some(i) => n > 0 && walk_avoids(fs, fs[i].parent_id, f, (n - 1) as nat),
        },
    }
}

/// The listing item of a subfolder.
pub open spec fn folder_item(f: FolderInfo) -> FolderContentsItem {
    FolderContentsItem {
        id: f.folder_id,
        name: f.name,
        is_folder: true,
        size_bytes: 0,
        category: None,
        ext: None,
        thumbnail_path: None,
        updated_at: f.created_at,
    }
}

/// The listing item of a file.
pub open spec fn file_item(f: FileInfo) -> FolderContentsItem {
    FolderContentsItem {
        id: f.file_id,
        name: f.name,
        is_folder: false,
        size_bytes: f.size_bytes,
        category: f.category,
        ext: f.ext,
        thumbnail_path: f.thumbnail_path,
        updated_at: f.updated_at,
    }
}

/// The listing items of the subfolders of `id`, in catalogue order.
pub open spec fn subfolder_items(fs: Seq<FolderInfo>, id: i64) -> Seq<FolderContentsItem>
    decreases fs.len(),
{
    if fs.len() == 0 {
        Seq::empty()
    } else {
        let rest = subfolder_items(fs.drop_last(), id);
        if fs.last().parent_id == Some(id) {
            rest.push(folder_item(fs.last()))
        } else {
            rest
        }
    }
}

/// The ids of the subfolders of `id`, in catalogue order.
pub open spec fn child_ids(fs: Seq<FolderInfo>, id: i64) -> Seq<i64>
    decreases fs.len(),
{
    if fs.len() == 0 {
        Seq::empty()
    } else {
        let rest = child_ids(fs.drop_last(), id);
        if fs.last().parent_id == Some(id) {
            rest.push(fs.last().folder_id)
        } else {
            rest
        }
    }
}

/// The index of the first folder with the given id.
pub fn find_folder(folders: &Vec<FolderInfo>, id: i64) -> (r: Option<usize>)
    ensures
        match r {
            Some(i) => i < folders.len() && folder_index(folders@, id) == Some(i as int),
            None => folder_index(folders@, id) is None,
        },
{
    let mut i: usize = 0;
    while i < folders.len()
        invariant
            i <= folders.len(),
            forall|j: int| 0 <= j < i ==> !has_folder_id(#[trigger] folders@[j], id),
        decreases folders.len() - i,
    {
        if folders[i].folder_id == id {
            proof {
                lemma_first_index_at(folders@, |f: FolderInfo| has_folder_id(f, id), i as int);
            }
            return Some(i);
        }
        i = i + 1;
    }
    proof {
        lemma_first_index_none(folders@, |f: FolderInfo| has_folder_id(f, id));
    }
    None
}

/// Whether the id names a folder (and not a file).
pub fn is_folder_id(folders: &Vec<FolderInfo>, id: i64) -> (r: bool)
    ensures
        r == folder_index(folders@, id) is Some,
{
    find_folder(folders, id).is_some()
}

/// The parent of the folder with the given id.
pub fn parent_id_of(folders: &Vec<FolderInfo>, id: i64) -> (r: Option<i64>)
    ensures
        r == parent_of(folders@, id),
{
    match find_folder(folders, id) {
        Some(i) => folders[i].parent_id,
        None => None,
    }
}

/// The ids of the subfolders of a folder, in catalogue order.
pub fn child_folder_ids(folders: &Vec<FolderInfo>, id: i64) -> (r: Vec<i64>)
    ensures
        r@ == child_ids(folders@, id),
{
    let mut out: Vec<i64> = Vec::new();
    let mut i: usize = 0;
    while i < folders.len()
        invariant
            i <= folders.len(),
            out@ == child_ids(folders@.take(i as int), id),
        decreases folders.len() - i,
    {
        assert(folders@.take(i + 1).drop_last() == folders@.take(i as int));
        if folders[i].parent_id == Some(id) {
            out.push(folders[i].folder_id);
        }
        i = i + 1;
    }
    assert(folders@.take(folders.len() as int) == folders@);
    out
}

/// The listing of a folder: its subfolders, in catalogue order, then the
/// given files, in their order.
pub fn get_folder_contents(all_folders: &Vec<FolderInfo>, files: &Vec<FileInfo>, folder_id: i64) -> (r:
    FolderContents)
    ensures
        r.items@ == subfolder_items(all_folders@, folder_id) + files@.map_values(
            |f: FileInfo| file_item(f),
        ),
{
    let mut items: Vec<FolderContentsItem> = Vec::new();
    let mut i: usize = 0;
    while i < all_folders.len()
        invariant
            i <= all_folders.len(),
            items@ == subfolder_items(all_folders@.take(i as int), folder_id),
        decreases all_folders.len() - i,
    {
        assert(all_folders@.take(i + 1).drop_last() == all_folders@.take(i as int));
        let f = &all_folders[i];
        if f.parent_id == Some(folder_id) {
            items.push(
                FolderContentsItem {
                    id: f.folder_id,
                    name: f.name.clone(),
                    is_folder: true,
                    size_bytes: 0,
                    category: None,
                    ext: None,
                    thumbnail_path: None,
                    updated_at: f.created_at,
                },
            );
        }
        i = i + 1;
    }
    assert(all_folders@.take(all_folders.len() as int) == all_folders@);
    let ghost folder_part = items@;
    let mut k: usize = 0;
    while k < files.len()
        invariant
            k <= files.len(),
            items@ == folder_part + files@.take(k as int).map_values(|f: FileInfo| file_item(f)),
        decreases files.len() - k,
    {
        let f = &files[k];
        items.push(
            FolderContentsItem {
                id: f.file_id,
                name: f.name.clone(),
                is_folder: false,
                size_bytes: f.size_bytes,
                category: clone_opt_text(&f.category),
                ext: clone_opt_text(&f.ext),
                thumbnail_path: clone_opt_text(&f.thumbnail_path),
                updated_at: f.updated_at,
            },
        );
        assert(files@.take(k + 1).map_values(|f: FileInfo| file_item(f)) =~= files@.take(
            k as int,
        ).map_values(|f: FileInfo| file_item(f)).push(file_item(files@[k as int])));
        k = k + 1;
    }
    assert(files@.take(files.len() as int) == files@);
    FolderContents { items }
}

/// Entry `j` of the catalogue is a subfolder of `id` with the id `x`.
pub open spec fn is_child_entry(fs: Seq<FolderInfo>, id: i64, j: int, x: i64) -> bool {
    0 <= j < fs.len() && fs[j].parent_id == Some(id) && fs[j].folder_id == x
}

/// Only subfolders are listed: the `k`-th listed id is the id of a
/// catalogue entry whose parent is `id` (the entry `j` returned).
pub proof fn lemma_child_id_from_entry(fs: Seq<FolderInfo>, id: i64, k: int) -> (j: int)
    requires
        0 <= k < child_ids(fs, id).len(),
    ensures
        is_child_entry(fs, id, j, child_ids(fs, id)[k]),
    decreases fs.len(),
{
    let init = fs.drop_last();
    let rest = child_ids(init, id);
    if k < rest.len() {
        let j = lemma_child_id_from_entry(init, id, k);
        assert(fs[j] == init[j]);
        j
    } else {
        fs.len() - 1
    }
}

/// No subfolder is left out: the id of every catalogue entry whose parent
/// is `id` is listed.
pub proof fn lemma_child_entry_listed(fs: Seq<FolderInfo>, id: i64, j: int)
    requires
        0 <= j < fs.len(),
        fs[j].parent_id == Some(id),
    ensures
        child_ids(fs, id).contains(fs[j].folder_id),
    decreases fs.len(),
{
    let init = fs.drop_last();
    let rest = child_ids(init, id);
    let c = child_ids(fs, id);
    if j < fs.len() - 1 {
        assert(init[j] == fs[j]);
        lemma_child_entry_listed(init, id, j);
        let k = choose|k: int| 0 <= k < rest.len() && rest[k] == init[j].folder_id;
        assert(c[k] == rest[k]);
    } else {
        assert(c[c.len() - 1] == fs[j].folder_id);
    }
}

/// A folder listing holds first one item per subfolder, each a folder with
/// its own id, name and creation time, no size and no file details, then
/// one item per given file, in order, carrying that file's own id, name,
/// size, category, extension, thumbnail and update time.
pub proof fn lemma_listing_items(fs: Seq<FolderInfo>, files: Seq<FileInfo>, id: i64)
    ensures
        ({
            let sub = subfolder_items(fs, id);
            let items = sub + files.map_values(|f: FileInfo| file_item(f));
            &&& items.len() == sub.len() + files.len()
            &&& forall|k: int|
                0 <= k < files.len() ==> {
                    let it = #[trigger] items[sub.len() + k];
                    &&& it.id == files[k].file_id
                    &&& it.name == files[k].name
                    &&& !it.is_folder
                    &&& it.size_bytes == files[k].size_bytes
                    &&& it.category == files[k].category
                    &&& it.ext == files[k].ext
                    &&& it.thumbnail_path == files[k].thumbnail_path
                    &&& it.updated_at == files[k].updated_at
                }
            &&& forall|k: int|
                0 <= k < sub.len() ==> exists|j: int|
                    0 <= j < fs.len() && fs[j].parent_id == Some(id) && {
                        let it = #[trigger] items[k];
                        &&& it.id == fs[j].folder_id
                        &&& it.name == fs[j].name
                        &&& it.is_folder
                        &&& it.size_bytes == 0
                        &&& it.category is None && it.ext is None && it.thumbnail_path is None
                        &&& it.updated_at == fs[j].created_at
                    }
        }),
{
    let sub = subfolder_items(fs, id);
    let items = sub + files.map_values(|f: FileInfo| file_item(f));
    lemma_subfolder_items_from(fs, id);
    assert forall|k: int| 0 <= k < sub.len() implies exists|j: int|
        0 <= j < fs.len() && fs[j].parent_id == Some(id) && {
            let it = #[trigger] items[k];
            &&& it.id == fs[j].folder_id
            &&& it.name == fs[j].name
            &&& it.is_folder
            &&& it.size_bytes == 0
            &&& it.category is None && it.ext is None && it.thumbnail_path is None
            &&& it.updated_at == fs[j].created_at
        } by {
        assert(items[k] == sub[k]);
    }
    assert forall|k: int| 0 <= k < files.len() implies ({
        let it = #[trigger] items[sub.len() + k];
        &&& it.id == files[k].file_id
        &&& it.name == files[k].name
        &&& !it.is_folder
        &&& it.size_bytes == files[k].size_bytes
        &&& it.category == files[k].category
        &&& it.ext == files[k].ext
        &&& it.thumbnail_path == files[k].thumbnail_path
        &&& it.updated_at == files[k].updated_at
    }) by {
        assert(items[sub.len() + k] == file_item(files[k]));
    }
}

/// Every subfolder item stands for a catalogue entry whose parent is `id`.
proof fn lemma_subfolder_items_from(fs: Seq<FolderInfo>, id: i64)
    ensures
        forall|k: int| 0 <= k < subfolder_items(fs, id).len() ==> exists|j: int|
            0 <= j < fs.len() && fs[j].parent_id == Some(id) && #[trigger] subfolder_items(fs, id)[k]
                == folder_item(fs[j]),
    decreases fs.len(),
{
    if fs.len() > 0 {
        let init = fs.drop_last();
        lemma_subfolder_items_from(init, id);
        let rest = subfolder_items(init, id);
        let c = subfolder_items(fs, id);
        assert forall|k: int| 0 <= k < c.len() implies exists|j: int|
            0 <= j < fs.len() && fs[j].parent_id == Some(id) && #[trigger] c[k] == folder_item(fs[j]) by {
            if k < rest.len() {
                assert(c[k] == rest[k]);
                let j = choose|j: int|
                    0 <= j < init.len() && init[j].parent_id == Some(id) && rest[k] == folder_item(init[j]);
                assert(fs[j] == init[j]);
            } else {
                assert(c[k] == folder_item(fs[fs.len() - 1]));
            }
        }
    }
}

/// More steps never hurt a walk that ends, and do not change what it meets.
pub proof fn lemma_walk_fuel(fs: Seq<FolderInfo>, start: Option<i64>, n: nat, m: nat)
    requires
        walk_ends(fs, start, n),
        n <= m,
    ensures
        walk_ends(fs, start, m),
        walk_indices(fs, start, n) == walk_indices(fs, start, m),
    decreases n,
{
    if let Some(id) = start {
        if let Some(i) = folder_index(fs, id) {
            lemma_walk_fuel(fs, fs[i].parent_id, (n - 1) as nat, (m - 1) as nat);
        }
    }
}

/// The folders met walking up are catalogue entries.
pub proof fn lemma_walk_indices_in_range(fs: Seq<FolderInfo>, start: Option<i64>, n: nat)
    ensures
        forall|k: int|
            0 <= k < walk_indices(fs, start, n).len() ==> 0 <= #[trigger] walk_indices(
                fs,
                start,
                n,
            )[k] < fs.len(),
    decreases n,
{
    if let Some(id) = start {
        lemma_first_index(fs, |f: FolderInfo| has_folder_id(f, id));
        if let Some(i) = folder_index(fs, id) {
            if n > 0 {
                lemma_walk_indices_in_range(fs, fs[i].parent_id, (n - 1) as nat);
                let rest = walk_indices(fs, fs[i].parent_id, (n - 1) as nat);
                assert forall|k: int| 0 < k < walk_indices(fs, start, n).len() implies 0
                    <= #[trigger] walk_indices(fs, start, n)[k] < fs.len() by {
                    assert(walk_indices(fs, start, n)[k] == rest[k - 1]);
                }
            }
        }
    }
}

/// The path from the root down to a folder: the folder's ancestors, root
/// first, ending with the folder itself. Empty when the folder is unknown.
/// Defined only where walking up from the folder ends, as it does in any
/// folder tree; on a parent cycle the walk would not end.
pub fn get_breadcrumb_path(all_folders: &Vec<FolderInfo>, folder_id: i64) -> (r: Vec<
    BreadcrumbItem,
>)
    requires
        walk_terminates(all_folders@, Some(folder_id)),
    ensures
        r@ == breadcrumb(all_folders@, folder_id),
{
    let ghost fs = all_folders@;
    let ghost n0 = choose|n: nat| walk_ends(fs, Some(folder_id), n);
    let mut seen: Vec<usize> = Vec::new();
    let mut next: Option<i64> = Some(folder_id);
    let ghost mut fuel: nat = n0;
    loop
        invariant
            fs == all_folders@,
            walk_ends(fs, next, fuel),
            walk_indices(fs, Some(folder_id), n0) == seen@.map_values(|v: usize| v as int)
                + walk_indices(fs, next, fuel),
            forall|k: int| 0 <= k < seen.len() ==> #[trigger] seen@[k] < all_folders.len(),
        ensures
            fs == all_folders@,
            walk_indices(fs, Some(folder_id), n0) == seen@.map_values(|v: usize| v as int),
            forall|k: int| 0 <= k < seen.len() ==> #[trigger] seen@[k] < all_folders.len(),
        decreases fuel,
    {
        match next {
            None => {
                assert(seen@.map_values(|v: usize| v as int) + Seq::<int>::empty() =~= seen@.map_values(|v: usize| v as int));
                break ;
            },
            Some(id) => {
                match find_folder(all_folders, id) {
                    None => {
                        assert(seen@.map_values(|v: usize| v as int) + Seq::<int>::empty() =~= seen@.map_values(|v: usize| v as int));
                        break ;
                    },
                    Some(i) => {
                        let ghost before = seen@;
                        seen.push(i);
                        assert(seen@.map_values(|v: usize| v as int) =~= before.map_values(
                            |v: usize| v as int,
                        ) + seq![i as int]);
                        next = all_folders[i].parent_id;
                        proof {
                            fuel = (fuel - 1) as nat;
                        }
                    },
                }
            },
        }
    }
    proof {
        let n1 = choose|n: nat| walk_ends(fs, Some(folder_id), n);
        if n0 <= n1 {
            lemma_walk_fuel(fs, Some(folder_id), n0, n1);
        } else {
            lemma_walk_fuel(fs, Some(folder_id), n1, n0);
        }
    }
    let ghost a = seen@.map_values(|v: usize| v as int);
    assert(a == ancestry(fs, folder_id));
    let mut out: Vec<BreadcrumbItem> = Vec::new();
    let mut k: usize = seen.len();
    while k > 0
        invariant
            k <= seen.len(),
            fs == all_folders@,
            a == seen@.map_values(|v: usize| v as int),
            forall|j: int| 0 <= j < seen.len() ==> #[trigger] seen@[j] < all_folders.len(),
            out@.len() == seen.len() - k,
            forall|j: int|
                0 <= j < out@.len() ==> #[trigger] out@[j] == crumb(fs[a[a.len() - 1 - j]]),
        decreases k,
    {
        k = k - 1;
        let f = &all_folders[seen[k]];
        out.push(BreadcrumbItem { id: f.folder_id, name: f.name.clone() });
    }
    assert(out@ =~= breadcrumb(fs, folder_id));
    out
}

/// Why a folder move is refused.
pub enum FolderMoveRefusal {
    /// The folder to move is not in the catalogue.
    FolderNotFound,
    /// The target is the folder itself.
    IntoItself,
    /// The target lies inside the folder.
    IntoDescendant,
}

/// The message shown for a refused folder move.
pub open spec fn refusal_text(r: FolderMoveRefusal) -> Seq<char> {
    match r {
        FolderMoveRefusal::FolderNotFound => "文件夹不存在"@,
        FolderMoveRefusal::IntoItself => "不能将文件夹移动到自身"@,
        FolderMoveRefusal::IntoDescendant => "不能将文件夹移动到其子文件夹中"@,
    }
}

impl FolderMoveRefusal {
    /// The message shown for this refusal.
    pub fn message(&self) -> (r: String)
        ensures
            r@ == refusal_text(*self),
    {
        proof {
            reveal_strlit("文件夹不存在");
            reveal_strlit("不能将文件夹移动到自身");
            reveal_strlit("不能将文件夹移动到其子文件夹中");
        }
        match self {
            FolderMoveRefusal::FolderNotFound => "文件夹不存在".to_owned(),
            FolderMoveRefusal::IntoItself => "不能将文件夹移动到自身".to_owned(),
            FolderMoveRefusal::IntoDescendant => "不能将文件夹移动到其子文件夹中".to_owned(),
        }
    }
}

/// A walk cannot both meet `f` and end without meeting it.
pub proof fn lemma_hits_excludes_avoids(
    fs: Seq<FolderInfo>,
    start: Option<i64>,
    f: i64,
    n: nat,
    m: nat,
)
    requires
        walk_hits(fs, start, f, n),
    ensures
        !walk_avoids(fs, start, f, m),
    decreases n,
{
    if let Some(id) = start {
        if id != f {
            if let Some(i) = folder_index(fs, id) {
                if m > 0 {
                    lemma_hits_excludes_avoids(fs, fs[i].parent_id, f, (n - 1) as nat, (m - 1) as nat);
                }
            }
        }
    }
}

/// Checks that `folder_id` may be moved under `target_parent_id`: the
/// folder must be known, the target must not be the folder itself, and
/// walking up from the target must not meet the folder. Answers the index
/// of the folder when the move may go ahead.
///
/// The walk up from the target must stop, at the folder or at a root; on a
/// parent cycle that avoids the folder it would not.
pub fn check_folder_move(
    all_folders: &Vec<FolderInfo>,
    folder_id: i64,
    target_parent_id: Option<i64>,
) -> (r: Result<usize, FolderMoveRefusal>)
    requires
        folder_index(all_folders@, folder_id) is Some && target_parent_id != Some(folder_id)
            ==> exists|n: nat|
            walk_hits(all_folders@, target_parent_id, folder_id, n) || walk_avoids(
                all_folders@,
                target_parent_id,
                folder_id,
                n,
            ),
    ensures
        (r matches Err(FolderMoveRefusal::FolderNotFound)) <==> folder_index(
            all_folders@,
            folder_id,
        ) is None,
        (r matches Err(FolderMoveRefusal::IntoItself)) <==> (folder_index(
            all_folders@,
            folder_id,
        ) is Some && target_parent_id == Some(folder_id)),
        (r matches Err(FolderMoveRefusal::IntoDescendant)) <==> (folder_index(
            all_folders@,
            folder_id,
        ) is Some && target_parent_id != Some(folder_id) && exists|n: nat|
            walk_hits(all_folders@, target_parent_id, folder_id, n)),
        match r {
            Ok(i) => folder_index(all_folders@, folder_id) == Some(i as int) && i
                < all_folders.len() && target_parent_id != Some(folder_id) && exists|n: nat|
                walk_avoids(all_folders@, target_parent_id, folder_id, n),
            Err(_) => true,
        },
{
    let idx = match find_folder(all_folders, folder_id) {
        Some(i) => i,
        None => {
            return Err(FolderMoveRefusal::FolderNotFound);
        },
    };
    if let Some(t) = target_parent_id {
        if t == folder_id {
            return Err(FolderMoveRefusal::IntoItself);
        }
    }
    let ghost fs = all_folders@;
    let ghost n0 = choose|n: nat|
        walk_hits(fs, target_parent_id, folder_id, n) || walk_avoids(
            fs,
            target_parent_id,
            folder_id,
            n,
        );
    let ghost mut fuel: nat = n0;
    let mut check_id = target_parent_id;
    // the walk from the target reduces to the walk from `check_id`
    loop
        invariant
            fs == all_folders@,
            folder_index(fs, folder_id) is Some,
            target_parent_id != Some(folder_id),
            walk_hits(fs, check_id, folder_id, fuel) || walk_avoids(fs, check_id, folder_id, fuel),
            walk_hits(fs, check_id, folder_id, fuel) ==> walk_hits(
                fs,
                target_parent_id,
                folder_id,
                n0,
            ),
            walk_avoids(fs, check_id, folder_id, fuel) ==> walk_avoids(
                fs,
                target_parent_id,
                folder_id,
                n0,
            ),
        ensures
            walk_avoids(fs, target_parent_id, folder_id, n0),
        decreases fuel,
    {
        match check_id {
            None => {
                break ;
            },
            Some(pid) => {
                if pid == folder_id {
                    proof {
                        assert(walk_hits(fs, target_parent_id, folder_id, n0));
                        assert forall|n: nat|
                            !walk_avoids(fs, target_parent_id, folder_id, n) by {
                            lemma_hits_excludes_avoids(fs, target_parent_id, folder_id, n0, n);
                        }
                    }
                    return Err(FolderMoveRefusal::IntoDescendant);
                }
                match find_folder(all_folders, pid) {
                    None => {
                        break ;
                    },
                    Some(i) => {
                        check_id = all_folders[i].parent_id;
                    },
                }
                proof {
                    fuel = (fuel - 1) as nat;
                }
            },
        }
    }
    proof {
        assert forall|n: nat| !walk_hits(fs, target_parent_id, folder_id, n) by {
            if walk_hits(fs, target_parent_id, folder_id, n) {
                lemma_hits_excludes_avoids(fs, target_parent_id, folder_id, n, n0);
            }
        }
    }
    Ok(idx)
}

/// The catalogue after the folder at `idx` was moved under `target`.
pub open spec fn moved(fs: Seq<FolderInfo>, idx: int, target: Option<i64>) -> Seq<FolderInfo> {
    fs.update(idx, FolderInfo { parent_id: target, ..fs[idx] })
}

/// Every walk up the folder tree ends: no folder is its own ancestor.
pub open spec fn all_walks_end(fs: Seq<FolderInfo>) -> bool {
    forall|id: i64| #[trigger] walk_terminates(fs, Some(id))
}

/// A move changes no folder id, so every folder is found where it was.
proof fn lemma_moved_index(fs: Seq<FolderInfo>, idx: int, target: Option<i64>, id: i64)
    requires
        0 <= idx < fs.len(),
    ensures
        folder_index(moved(fs, idx, target), id) == folder_index(fs, id),
{
    let m = moved(fs, idx, target);
    let p = |f: FolderInfo| has_folder_id(f, id);
    lemma_first_index(fs, p);
    lemma_first_index(m, p);
    assert forall|j: int| 0 <= j < fs.len() implies p(#[trigger] m[j]) == p(fs[j]) by {
        assert(m[j].folder_id == fs[j].folder_id);
    }
    match (first_index(fs, p), first_index(m, p)) {
        (Some(a), Some(b)) => {
            if a < b {
                assert(p(m[a]) == p(fs[a]));
            } else if b < a {
                assert(p(m[b]) == p(fs[b]));
            }
        },
        (Some(a), None) => {
            assert(p(m[a]) == p(fs[a]));
        },
        (None, Some(b)) => {
            assert(p(m[b]) == p(fs[b]));
        },
        (None, None) => {},
    }
}

/// A walk that avoids the moved folder is the same walk after the move.
proof fn lemma_avoiding_walk_survives_move(
    fs: Seq<FolderInfo>,
    idx: int,
    target: Option<i64>,
    f: i64,
    start: Option<i64>,
    n: nat,
)
    requires
        folder_index(fs, f) == Some(idx),
        walk_avoids(fs, start, f, n),
    ensures
        walk_ends(moved(fs, idx, target), start, n),
    decreases n,
{
    lemma_first_index(fs, |x: FolderInfo| has_folder_id(x, f));
    if let Some(id) = start {
        lemma_moved_index(fs, idx, target, id);
        if let Some(i) = folder_index(fs, id) {
            lemma_first_index(fs, |x: FolderInfo| has_folder_id(x, id));
            assert(i != idx);
            lemma_avoiding_walk_survives_move(fs, idx, target, f, fs[i].parent_id, (n - 1) as nat);
        }
    }
}

/// After a move whose target's walk avoids the moved folder, every walk that
/// ended before still ends, at most `t + 1` steps later.
proof fn lemma_walk_ends_after_move(
    fs: Seq<FolderInfo>,
    idx: int,
    target: Option<i64>,
    f: i64,
    t: nat,
    start: Option<i64>,
    n: nat,
)
    requires
        folder_index(fs, f) == Some(idx),
        walk_avoids(fs, target, f, t),
        walk_ends(fs, start, n),
    ensures
        walk_ends(moved(fs, idx, target), start, n + t + 1),
    decreases n,
{
    let m = moved(fs, idx, target);
    lemma_first_index(fs, |x: FolderInfo| has_folder_id(x, f));
    if let Some(id) = start {
        lemma_moved_index(fs, idx, target, id);
        if let Some(i) = folder_index(fs, id) {
            lemma_first_index(fs, |x: FolderInfo| has_folder_id(x, id));
            if i == idx {
                lemma_avoiding_walk_survives_move(fs, idx, target, f, target, t);
                lemma_walk_fuel(m, target, t, (n + t) as nat);
                assert(m[i].parent_id == target);
            } else {
                lemma_walk_ends_after_move(fs, idx, target, f, t, fs[i].parent_id, (n - 1) as nat);
                assert(m[i].parent_id == fs[i].parent_id);
            }
        }
    }
}

/// A move that `check_folder_move` accepts keeps the folder tree a tree:
/// if no folder was its own ancestor before, none is after.
pub proof fn lemma_accepted_move_keeps_tree(
    fs: Seq<FolderInfo>,
    folder_id: i64,
    idx: int,
    target: Option<i64>,
)
    requires
        all_walks_end(fs),
        folder_index(fs, folder_id) == Some(idx),
        exists|n: nat| walk_avoids(fs, target, folder_id, n),
    ensures
        all_walks_end(moved(fs, idx, target)),
{
    let t = choose|n: nat| walk_avoids(fs, target, folder_id, n);
    assert forall|id: i64| #[trigger] walk_terminates(moved(fs, idx, target), Some(id)) by {
        assert(walk_terminates(fs, Some(id)));
        let n = choose|n: nat| walk_ends(fs, Some(id), n);
        lemma_walk_ends_after_move(fs, idx, target, folder_id, t, Some(id), n);
    }
}

/// The catalogue after the folders at `idxs` were moved under `target`,
/// one after the other.
pub open spec fn moved_all(fs: Seq<FolderInfo>, idxs: Seq<int>, target: Option<i64>) -> Seq<FolderInfo>
    decreases idxs.len(),
{
    if idxs.len() == 0 {
        fs
    } else {
        moved(moved_all(fs, idxs.drop_last(), target), idxs.last(), target)
    }
}

/// The folder at index `i` is one that `check_folder_move` accepts for a
/// move under `target` in the catalogue `fs`.
pub open spec fn move_accepted(fs: Seq<FolderInfo>, i: int, target: Option<i64>) -> bool {
    &&& folder_index(fs, fs[i].folder_id) == Some(i)
    &&& exists|n: nat| walk_avoids(fs, target, fs[i].folder_id, n)
}

/// Moving a folder that a walk avoids changes nothing the walk meets.
proof fn lemma_walk_avoids_unchanged(
    fs: Seq<FolderInfo>,
    idx: int,
    target: Option<i64>,
    f: i64,
    nf: nat,
    g: i64,
    start: Option<i64>,
    m: nat,
)
    requires
        folder_index(fs, f) == Some(idx),
        walk_avoids(fs, start, f, nf),
    ensures
        walk_avoids(moved(fs, idx, target), start, g, m) == walk_avoids(fs, start, g, m),
    decreases m,
{
    lemma_first_index(fs, |x: FolderInfo| has_folder_id(x, f));
    if let Some(id) = start {
        lemma_moved_index(fs, idx, target, id);
        if let Some(i) = folder_index(fs, id) {
            lemma_first_index(fs, |x: FolderInfo| has_folder_id(x, id));
            assert(i != idx);
            assert(moved(fs, idx, target)[i].parent_id == fs[i].parent_id);
            if m > 0 {
                lemma_walk_avoids_unchanged(fs, idx, target, f, (nf - 1) as nat, g, fs[i].parent_id, (m - 1) as nat);
            }
        }
    }
}

/// A batch of folder moves under one target, each checked against the
/// catalogue as it was before the batch, keeps the folder tree a tree:
/// the folders moved are never the target's ancestors, so the target's
/// own path to the root never changes and no move closes a cycle.
pub proof fn lemma_batch_move_keeps_tree(fs: Seq<FolderInfo>, idxs: Seq<int>, target: Option<i64>)
    requires
        all_walks_end(fs),
        forall|k: int| 0 <= k < idxs.len() ==> move_accepted(fs, #[trigger] idxs[k], target),
    ensures
        all_walks_end(moved_all(fs, idxs, target)),
        moved_all(fs, idxs, target).len() == fs.len(),
        forall|id: i64| #[trigger] folder_index(moved_all(fs, idxs, target), id) == folder_index(fs, id),
        forall|g: i64, m: nat| #[trigger]
            walk_avoids(moved_all(fs, idxs, target), target, g, m) == walk_avoids(fs, target, g, m),
    decreases idxs.len(),
{
    if idxs.len() > 0 {
        let prev = idxs.drop_last();
        assert forall|k: int| 0 <= k < prev.len() implies move_accepted(fs, #[trigger] prev[k], target) by {
            assert(prev[k] == idxs[k]);
        }
        lemma_batch_move_keeps_tree(fs, prev, target);
        let cs = moved_all(fs, prev, target);
        let i = idxs.last();
        assert(move_accepted(fs, idxs[idxs.len() - 1], target));
        let f = fs[i].folder_id;
        let n = choose|n: nat| walk_avoids(fs, target, f, n);
        lemma_first_index(fs, |x: FolderInfo| has_folder_id(x, f));
        assert(folder_index(cs, f) == Some(i));
        assert(walk_avoids(cs, target, f, n));
        lemma_accepted_move_keeps_tree(cs, f, i, target);
        assert(moved_all(fs, idxs, target) == moved(cs, i, target));
        assert forall|id: i64| #[trigger] folder_index(moved(cs, i, target), id) == folder_index(fs, id) by {
            lemma_moved_index(cs, i, target, id);
        }
        assert forall|g: i64, m: nat| #[trigger] walk_avoids(moved(cs, i, target), target, g, m)
            == walk_avoids(fs, target, g, m) by {
            lemma_walk_avoids_unchanged(cs, i, target, f, n, g, target, m);
        }
    }
}

/// The shape of a walk up the tree: each folder met is found under its own
/// id, each is the parent of the one met before, and the last one has no
/// known parent.
#[verifier::spinoff_prover]
proof fn lemma_walk_shape(fs: Seq<FolderInfo>, start: Option<i64>, n: nat)
    requires
        walk_ends(fs, start, n),
    ensures
        forall|t: int|
            0 <= t < walk_indices(fs, start, n).len() ==> 0 <= #[trigger] walk_indices(fs, start, n)[t]
                < fs.len() && folder_index(fs, fs[walk_indices(fs, start, n)[t]].folder_id) == Some(
                walk_indices(fs, start, n)[t],
            ),
        forall|t: int|
            0 <= t < walk_indices(fs, start, n).len() - 1 ==> fs[#[trigger] walk_indices(
                fs,
                start,
                n,
            )[t]].parent_id == Some(fs[walk_indices(fs, start, n)[t + 1]].folder_id),
        walk_indices(fs, start, n).len() > 0 ==> match fs[walk_indices(fs, start, n).last()].parent_id {
            None => true,
            Some(p) => folder_index(fs, p) is None,
        },
        match start {
            Some(id) => match folder_index(fs, id) {
                Some(i) => walk_indices(fs, start, n).len() > 0 && walk_indices(fs, start, n)[0] == i,
                None => walk_indices(fs, start, n).len() == 0,
            },
            None => walk_indices(fs, start, n).len() == 0,
        },
    decreases n,
{
    if let Some(id) = start {
        lemma_first_index(fs, |f: FolderInfo| has_folder_id(f, id));
        if let Some(i) = folder_index(fs, id) {
            let next = fs[i].parent_id;
            lemma_walk_shape(fs, next, (n - 1) as nat);
            let rest = walk_indices(fs, next, (n - 1) as nat);
            let w = walk_indices(fs, start, n);
            assert(w == seq![i] + rest);
            assert forall|t: int| 0 < t < w.len() implies #[trigger] w[t] == rest[t - 1] by {}
            assert(fs[i].folder_id == id);
            if rest.len() > 0 {
                match next {
                    Some(p) => {
                        lemma_first_index(fs, |f: FolderInfo| has_folder_id(f, p));
                    },
                    None => {},
                }
            }
        }
    }
}

/// The path to a folder starts at a root (a folder without a known parent),
/// ends with the folder itself, and each step is the parent of the next.
pub proof fn lemma_breadcrumb_shape(fs: Seq<FolderInfo>, id: i64)
    requires
        walk_terminates(fs, Some(id)),
        folder_index(fs, id) is Some,
    ensures
        breadcrumb(fs, id).len() > 0,
        breadcrumb(fs, id).last() == crumb(fs[folder_index(fs, id).unwrap()]),
        forall|k: int|
            0 < k < breadcrumb(fs, id).len() ==> parent_of(fs, #[trigger] breadcrumb(fs, id)[k].id)
                == Some(breadcrumb(fs, id)[k - 1].id),
        match parent_of(fs, breadcrumb(fs, id)[0].id) {
            None => true,
            Some(p) => folder_index(fs, p) is None,
        },
{
    let n = choose|n: nat| walk_ends(fs, Some(id), n);
    lemma_walk_shape(fs, Some(id), n);
    let w = ancestry(fs, id);
    let b = breadcrumb(fs, id);
    let len = w.len();
    assert(b.len() == len);
    assert(b[len - 1] == crumb(fs[w[0]]));
    assert forall|k: int| 0 < k < b.len() implies parent_of(fs, #[trigger] b[k].id) == Some(
        b[k - 1].id,
    ) by {
        let t = len - 1 - k;
        assert(b[k] == crumb(fs[w[t]]));
        assert(b[k - 1] == crumb(fs[w[t + 1]]));
        assert(folder_index(fs, fs[w[t]].folder_id) == Some(w[t]));
    }
    assert(b[0] == crumb(fs[w[len - 1]]));
    assert(folder_index(fs, fs[w[len - 1]].folder_id) == Some(w[len - 1]));
}

/// A walk takes at most as many steps as its fuel.
proof fn lemma_walk_len(fs: Seq<FolderInfo>, start: Option<i64>, n: nat)
    ensures
        walk_indices(fs, start, n).len() <= n,
    decreases n,
{
    if let Some(id) = start {
        if let Some(i) = folder_index(fs, id) {
            if n > 0 {
                lemma_walk_len(fs, fs[i].parent_id, (n - 1) as nat);
            }
        }
    }
}

/// A walk that ends needs no more steps than the folders it meets.
proof fn lemma_walk_ends_at_len(fs: Seq<FolderInfo>, start: Option<i64>, n: nat)
    requires
        walk_ends(fs, start, n),
    ensures
        walk_ends(fs, start, walk_indices(fs, start, n).len()),
    decreases n,
{
    if let Some(id) = start {
        if let Some(i) = folder_index(fs, id) {
            lemma_walk_ends_at_len(fs, fs[i].parent_id, (n - 1) as nat);
        }
    }
}

/// After `a` steps of a walk that ends, the rest of the walk is the walk
/// from where it stands then.
proof fn lemma_walk_suffix(fs: Seq<FolderInfo>, start: Option<i64>, n: nat, a: nat) -> (r: Option<
    i64,
>)
    requires
        walk_ends(fs, start, n),
        a <= walk_indices(fs, start, n).len(),
    ensures
        a <= n,
        walk_ends(fs, r, (n - a) as nat),
        walk_indices(fs, r, (n - a) as nat) == walk_indices(fs, start, n).skip(a as int),
        a < walk_indices(fs, start, n).len() ==> r == Some(
            fs[walk_indices(fs, start, n)[a as int]].folder_id,
        ),
    decreases a,
{
    lemma_walk_len(fs, start, n);
    let w = walk_indices(fs, start, n);
    if a == 0 {
        assert(w.skip(0) == w);
        if w.len() > 0 {
            lemma_walk_shape(fs, start, n);
            let id = start.unwrap();
            lemma_first_index(fs, |f: FolderInfo| has_folder_id(f, id));
        }
        start
    } else {
        let id = start.unwrap();
        let i = folder_index(fs, id).unwrap();
        let next = fs[i].parent_id;
        assert(w == seq![i] + walk_indices(fs, next, (n - 1) as nat));
        let r = lemma_walk_suffix(fs, next, (n - 1) as nat, (a - 1) as nat);
        assert(w.skip(a as int) == walk_indices(fs, next, (n - 1) as nat).skip(a - 1));
        if a < w.len() {
            assert(w[a as int] == walk_indices(fs, next, (n - 1) as nat)[a - 1]);
        }
        r
    }
}

/// A walk that ends meets no folder twice.
proof fn lemma_walk_distinct(fs: Seq<FolderInfo>, start: Option<i64>, n: nat)
    requires
        walk_ends(fs, start, n),
    ensures
        walk_indices(fs, start, n).no_duplicates(),
{
    let w = walk_indices(fs, start, n);
    assert forall|a: int, b: int| 0 <= a < w.len() && 0 <= b < w.len() && a != b implies w[a]
        != w[b] by {
        if w[a] == w[b] {
            let (x, y) = if a < b {
                (a, b)
            } else {
                (b, a)
            };
            let sx = lemma_walk_suffix(fs, start, n, x as nat);
            let sy = lemma_walk_suffix(fs, start, n, y as nat);
            assert(sx == sy);
            let fx = (n - x) as nat;
            let fy = (n - y) as nat;
            lemma_walk_fuel(fs, sx, fy, fx);
            assert(w.skip(x).len() == w.skip(y).len());
        }
    }
}

/// Walking up from `start` ends at all exactly when it ends within as many
/// steps as there are folders.
pub proof fn lemma_walk_terminates_within_len(fs: Seq<FolderInfo>, start: Option<i64>)
    ensures
        walk_terminates(fs, start) <==> walk_ends(fs, start, fs.len()),
{
    if walk_terminates(fs, start) {
        let n = choose|n: nat| walk_ends(fs, start, n);
        let w = walk_indices(fs, start, n);
        lemma_walk_distinct(fs, start, n);
        lemma_walk_indices_in_range(fs, start, n);
        w.unique_seq_to_set();
        lemma_int_range(0, fs.len() as int);
        assert(w.to_set().subset_of(set_int_range(0, fs.len() as int))) by {
            assert forall|x: int| w.to_set().contains(x) implies set_int_range(
                0,
                fs.len() as int,
            ).contains(x) by {
                let k = choose|k: int| 0 <= k < w.len() && w[k] == x;
            }
        }
        lemma_len_subset(w.to_set(), set_int_range(0, fs.len() as int));
        lemma_walk_ends_at_len(fs, start, n);
        lemma_walk_fuel(fs, start, w.len(), fs.len());
    }
}

/// Whether walking up from `start` ends within `fuel` steps.
pub fn walk_ends_within(folders: &Vec<FolderInfo>, start: Option<i64>, fuel: usize) -> (r: bool)
    ensures
        r == walk_ends(folders@, start, fuel as nat),
{
    let mut cur = start;
    let mut left = fuel;
    loop
        invariant
            left <= fuel,
            walk_ends(folders@, start, fuel as nat) == walk_ends(folders@, cur, left as nat),
        decreases left,
    {
        match cur {
            None => {
                return true;
            },
            Some(id) => match find_folder(folders, id) {
                None => {
                    return true;
                },
                Some(i) => {
                    if left == 0 {
                        return false;
                    }
                    cur = folders[i].parent_id;
                    left = left - 1;
                },
            },
        }
    }
}

/// The path from the root down to a folder, or `None` when walking up
/// from the folder never ends (its ancestors form a cycle), where the path
/// could not be completed.
pub fn try_get_breadcrumb_path(all_folders: &Vec<FolderInfo>, folder_id: i64) -> (r: Option<
    Vec<BreadcrumbItem>,
>)
    ensures
        r is None <==> !walk_terminates(all_folders@, Some(folder_id)),
        r matches Some(v) ==> v@ == breadcrumb(all_folders@, folder_id),
{
    proof {
        lemma_walk_terminates_within_len(all_folders@, Some(folder_id));
    }
    if walk_ends_within(all_folders, Some(folder_id), all_folders.len()) {
        Some(get_breadcrumb_path(all_folders, folder_id))
    } else {
        None
    }
}

/// The walk from `start` settles within `n` steps: it meets `f` or ends.
pub open spec fn walk_settles(fs: Seq<FolderInfo>, start: Option<i64>, f: i64, n: nat) -> bool {
    walk_hits(fs, start, f, n) || walk_avoids(fs, start, f, n)
}

/// Cutting the folder `f` loose from its parent turns "meets `f` or ends"
/// into "ends".
proof fn lemma_settles_as_cut_walk(
    fs: Seq<FolderInfo>,
    idx: int,
    f: i64,
    start: Option<i64>,
    m: nat,
)
    requires
        folder_index(fs, f) == Some(idx),
    ensures
        walk_ends(moved(fs, idx, None), start, m) ==> walk_settles(fs, start, f, m),
        walk_settles(fs, start, f, m) ==> walk_ends(moved(fs, idx, None), start, m + 1),
    decreases m,
{
    let cut = moved(fs, idx, None);
    lemma_first_index(fs, |x: FolderInfo| has_folder_id(x, f));
    if let Some(id) = start {
        lemma_moved_index(fs, idx, None, id);
        if id == f {
            assert(cut[idx].parent_id is None);
            assert(walk_ends(cut, None, m));
        } else if let Some(i) = folder_index(fs, id) {
            lemma_first_index(fs, |x: FolderInfo| has_folder_id(x, id));
            assert(i != idx);
            assert(cut[i].parent_id == fs[i].parent_id);
            if m > 0 {
                lemma_settles_as_cut_walk(fs, idx, f, fs[i].parent_id, (m - 1) as nat);
                assert(walk_settles(fs, start, f, m) ==> walk_ends(cut, fs[i].parent_id, m));
            }
        }
    }
}

/// The walk from `start` settles at all exactly when it settles within as
/// many steps as there are folders.
pub proof fn lemma_walk_settles_within_len(fs: Seq<FolderInfo>, f: i64, start: Option<i64>)
    requires
        folder_index(fs, f) is Some,
    ensures
        (exists|n: nat| walk_settles(fs, start, f, n)) <==> walk_settles(fs, start, f, fs.len()),
{
    let idx = folder_index(fs, f).unwrap();
    lemma_first_index(fs, |x: FolderInfo| has_folder_id(x, f));
    let cut = moved(fs, idx, None);
    if exists|n: nat| walk_settles(fs, start, f, n) {
        let n = choose|n: nat| walk_settles(fs, start, f, n);
        lemma_settles_as_cut_walk(fs, idx, f, start, n);
        lemma_walk_terminates_within_len(cut, start);
        assert(cut.len() == fs.len());
        lemma_settles_as_cut_walk(fs, idx, f, start, fs.len());
    }
}

/// Whether the walk from `start` settles (meets `f` or ends) within `fuel`
/// steps.
pub fn walk_settles_within(folders: &Vec<FolderInfo>, start: Option<i64>, f: i64, fuel: usize) -> (r:
    bool)
    ensures
        r == walk_settles(folders@, start, f, fuel as nat),
{
    let mut cur = start;
    let mut left = fuel;
    loop
        invariant
            left <= fuel,
            walk_settles(folders@, start, f, fuel as nat) == walk_settles(folders@, cur, f, left as nat),
        decreases left,
    {
        match cur {
            None => {
                return true;
            },
            Some(id) => {
                if id == f {
                    return true;
                }
                match find_folder(folders, id) {
                    None => {
                        return true;
                    },
                    Some(i) => {
                        if left == 0 {
                            return false;
                        }
                        cur = folders[i].parent_id;
                        left = left - 1;
                    },
                }
            },
        }
    }
}

/// The verdict `check_folder_move` gives.
pub open spec fn move_verdict(
    fs: Seq<FolderInfo>,
    folder_id: i64,
    target: Option<i64>,
    r: Result<usize, FolderMoveRefusal>,
) -> bool {
    &&& (r matches Err(FolderMoveRefusal::FolderNotFound)) <==> folder_index(fs, folder_id) is None
    &&& (r matches Err(FolderMoveRefusal::IntoItself)) <==> (folder_index(fs, folder_id) is Some
        && target == Some(folder_id))
    &&& (r matches Err(FolderMoveRefusal::IntoDescendant)) <==> (folder_index(fs, folder_id) is Some
        && target != Some(folder_id) && exists|n: nat| walk_hits(fs, target, folder_id, n))
    &&& r matches Ok(i) ==> folder_index(fs, folder_id) == Some(i as int) && i < fs.len() && target
        != Some(folder_id) && exists|n: nat| walk_avoids(fs, target, folder_id, n)
}

/// The verdict on a folder move, or `None` when walking up from the target
/// neither meets the folder nor ends (the target's ancestors form a cycle
/// that avoids the folder), where no verdict is reached.
pub fn try_check_folder_move(
    all_folders: &Vec<FolderInfo>,
    folder_id: i64,
    target_parent_id: Option<i64>,
) -> (r: Option<Result<usize, FolderMoveRefusal>>)
    ensures
        r is None <==> (folder_index(all_folders@, folder_id) is Some && target_parent_id != Some(
            folder_id,
        ) && forall|n: nat| !walk_settles(all_folders@, target_parent_id, folder_id, n)),
        r matches Some(v) ==> move_verdict(all_folders@, folder_id, target_parent_id, v),
{
    let found = find_folder(all_folders, folder_id).is_some();
    let to_itself = match target_parent_id {
        Some(t) => t == folder_id,
        None => false,
    };
    if found && !to_itself {
        proof {
            lemma_walk_settles_within_len(all_folders@, folder_id, target_parent_id);
        }
        if !walk_settles_within(all_folders, target_parent_id, folder_id, all_folders.len()) {
            return None;
        }
    }
    Some(check_folder_move(all_folders, folder_id, target_parent_id))
}

} // verus!
