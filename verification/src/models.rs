//! The records that the file manager stores and reports.
use vstd::prelude::*;

verus! {

/// A copy of an optional piece of text.
pub fn clone_opt_text(o: &Option<String>) -> (r: Option<String>)
    ensures
        r == *o,
{
    match o {
        Some(s) => Some(s.clone()),
        None => None,
    }
}

/// A stored file, as the catalogue lists it. The media duration that the
/// catalogue also keeps is a floating-point value and is carried beside
/// this record by the application layer.
pub struct FileInfo {
    pub file_id: i64,
    pub name: String,
    pub ext: Option<String>,
    pub mime_type: Option<String>,
    pub size_bytes: i64,
    pub width: Option<i32>,
    pub height: Option<i32>,
    pub category: Option<String>,
    pub thumbnail_path: Option<String>,
    pub created_at: i64,
    pub updated_at: i64,
}

impl Clone for FileInfo {
    fn clone(&self) -> (r: Self)
        ensures
            r == *self,
    {
        FileInfo {
            file_id: self.file_id,
            name: self.name.clone(),
            ext: clone_opt_text(&self.ext),
            mime_type: clone_opt_text(&self.mime_type),
            size_bytes: self.size_bytes,
            width: self.width,
            height: self.height,
            category: clone_opt_text(&self.category),
            thumbnail_path: clone_opt_text(&self.thumbnail_path),
            created_at: self.created_at,
            updated_at: self.updated_at,
        }
    }
}

/// A folder of the catalogue; `parent_id` is `None` for the root.
pub struct FolderInfo {
    pub folder_id: i64,
    pub name: String,
    pub parent_id: Option<i64>,
    pub created_at: i64,
}

impl Clone for FolderInfo {
    fn clone(&self) -> (r: Self)
        ensures
            r == *self,
    {
        FolderInfo {
            folder_id: self.folder_id,
            name: self.name.clone(),
            parent_id: self.parent_id,
            created_at: self.created_at,
        }
    }
}

/// Where one chunk of a stored file lies: `length` bytes at `offset` in the
/// store file `store_file`.
pub struct ChunkLocation {
    pub file_id: i64,
    pub chunk_index: i32,
    pub store_file: String,
    pub offset: i64,
    pub length: i64,
}

impl Clone for ChunkLocation {
    fn clone(&self) -> (r: Self)
        ensures
            r == *self,
    {
        ChunkLocation {
            file_id: self.file_id,
            chunk_index: self.chunk_index,
            store_file: self.store_file.clone(),
            offset: self.offset,
            length: self.length,
        }
    }
}

/// The outcome of an import: how many entries were imported, how many
/// failed, and one message per failure.
pub struct ImportResult {
    pub success_count: i32,
    pub fail_count: i32,
    pub errors: Vec<String>,
}

/// One entry of a folder listing: a subfolder or a file.
pub struct FolderContentsItem {
    pub id: i64,
    pub name: String,
    pub is_folder: bool,
    pub size_bytes: i64,
    pub category: Option<String>,
    pub ext: Option<String>,
    pub thumbnail_path: Option<String>,
    pub updated_at: i64,
}

/// A folder listing: its subfolders, then its files.
pub struct FolderContents {
    pub items: Vec<FolderContentsItem>,
}

/// One step of the path from the root to a folder.
pub struct BreadcrumbItem {
    pub id: i64,
    pub name: String,
}

/// The outcome of a batch operation: how many items succeeded, how many
/// failed, and one message per failure.
pub struct BatchResult {
    pub success_count: i32,
    pub fail_count: i32,
    pub errors: Vec<String>,
}

/// The properties that a database keeps about itself.
pub struct DbProperties {
    pub uuid: String,
    pub display_name: String,
    pub db_type: String,
    pub password_hash: Option<String>,
}

/// A database as the connection list shows it.
pub struct DbConnectionInfo {
    pub uuid: String,
    pub display_name: String,
    pub db_type: String,
    pub path: String,
    pub is_connected: bool,
    pub is_default: bool,
    pub has_password: bool,
}

/// A request to create a database.
pub struct CreateDbRequest {
    pub path: String,
    pub password: Option<String>,
    pub display_name: Option<String>,
    pub db_type: String,
}

/// The identity of a created database.
pub struct CreateDbResult {
    pub uuid: String,
    pub display_name: String,
}

/// The outcome of a password check.
pub struct PasswordVerifyResult {
    pub valid: bool,
    pub has_password: bool,
}

/// The outcome of an integrity check: whether the database is sound, and
/// one line per problem found.
pub struct IntegrityCheckResult {
    pub valid: bool,
    pub details: Vec<String>,
}

impl ImportResult {
    /// Every failure has its message.
    pub open spec fn wf(&self) -> bool {
        &&& 0 <= self.success_count
        &&& 0 <= self.fail_count
        &&& self.errors@.len() == self.fail_count
    }

    /// No entry processed yet.
    pub fn new() -> (r: ImportResult)
        ensures
            r.wf(),
            r.success_count == 0,
            r.fail_count == 0,
            r.errors@ == Seq::<String>::empty(),
    {
        ImportResult { success_count: 0, fail_count: 0, errors: Vec::new() }
    }

    /// Counts one imported entry.
    pub fn record_success(&mut self)
        requires
            old(self).success_count < i32::MAX,
        ensures
            final(self).success_count == old(self).success_count + 1,
            final(self).fail_count == old(self).fail_count,
            final(self).errors@ == old(self).errors@,
            old(self).wf() ==> final(self).wf(),
    {
        self.success_count = self.success_count + 1;
    }

    /// Counts one failed entry with its message.
    pub fn record_failure(&mut self, message: String)
        requires
            old(self).fail_count < i32::MAX,
        ensures
            final(self).success_count == old(self).success_count,
            final(self).fail_count == old(self).fail_count + 1,
            final(self).errors@ == old(self).errors@.push(message),
            old(self).wf() ==> final(self).wf(),
    {
        self.fail_count = self.fail_count + 1;
        self.errors.push(message);
    }

    /// Adds the counts and messages of an import of a subdirectory.
    pub fn absorb(&mut self, other: ImportResult)
        requires
            i32::MIN <= old(self).success_count + other.success_count <= i32::MAX,
            i32::MIN <= old(self).fail_count + other.fail_count <= i32::MAX,
        ensures
            final(self).success_count == old(self).success_count + other.success_count,
            final(self).fail_count == old(self).fail_count + other.fail_count,
            final(self).errors@ == old(self).errors@ + other.errors@,
            old(self).wf() && other.wf() ==> final(self).wf(),
    {
        self.success_count = self.success_count + other.success_count;
        self.fail_count = self.fail_count + other.fail_count;
        let mut more = other.errors;
        self.errors.append(&mut more);
    }
}

impl BatchResult {
    /// Every failure has its message.
    pub open spec fn wf(&self) -> bool {
        &&& 0 <= self.success_count
        &&& 0 <= self.fail_count
        &&& self.errors@.len() == self.fail_count
    }

    /// No item processed yet.
    pub fn new() -> (r: BatchResult)
        ensures
            r.wf(),
            r.success_count == 0,
            r.fail_count == 0,
            r.errors@ == Seq::<String>::empty(),
    {
        BatchResult { success_count: 0, fail_count: 0, errors: Vec::new() }
    }

    /// Counts one item that succeeded.
    pub fn record_success(&mut self)
        requires
            old(self).success_count < i32::MAX,
        ensures
            final(self).success_count == old(self).success_count + 1,
            final(self).fail_count == old(self).fail_count,
            final(self).errors@ == old(self).errors@,
            old(self).wf() ==> final(self).wf(),
    {
        self.success_count = self.success_count + 1;
    }

    /// Counts one item that failed, with its message.
    pub fn record_failure(&mut self, message: String)
        requires
            old(self).fail_count < i32::MAX,
        ensures
            final(self).success_count == old(self).success_count,
            final(self).fail_count == old(self).fail_count + 1,
            final(self).errors@ == old(self).errors@.push(message),
            old(self).wf() ==> final(self).wf(),
    {
        self.fail_count = self.fail_count + 1;
        self.errors.push(message);
    }
}

/// The messages of the failed items of a batch, in order.
pub open spec fn failure_messages(outcomes: Seq<Result<(), String>>) -> Seq<Seq<char>>
    decreases outcomes.len(),
{
    if outcomes.len() == 0 {
        Seq::empty()
    } else {
        let rest = failure_messages(outcomes.drop_last());
        match outcomes.last() {
            Ok(()) => rest,
            Err(m) => rest.push(m@),
        }
    }
}

impl BatchResult {
    /// The result of a batch from the outcome of each item, in order: every
    /// item is counted once, as a success or as a failure with its message.
    pub fn from_outcomes(outcomes: &Vec<Result<(), String>>) -> (r: BatchResult)
        requires
            outcomes@.len() <= i32::MAX,
        ensures
            r.wf(),
            r.success_count + r.fail_count == outcomes@.len(),
            r.errors@.map_values(|s: String| s@) == failure_messages(outcomes@),
    {
        let mut r = BatchResult::new();
        let mut i: usize = 0;
        while i < outcomes.len()
            invariant
                i <= outcomes@.len() <= i32::MAX,
                r.wf(),
                r.success_count + r.fail_count == i,
                r.errors@.map_values(|s: String| s@) == failure_messages(outcomes@.take(i as int)),
            decreases outcomes.len() - i,
        {
            assert(outcomes@.take(i + 1).drop_last() == outcomes@.take(i as int));
            let ghost before = r.errors@;
            match &outcomes[i] {
                Ok(()) => r.record_success(),
                Err(m) => {
                    r.record_failure(m.clone());
                    assert(r.errors@.map_values(|s: String| s@) =~= before.map_values(|s: String| s@).push(
                        m@,
                    ));
                },
            }
            i = i + 1;
        }
        assert(outcomes@.take(outcomes.len() as int) == outcomes@);
        r
    }
}

impl DbProperties {
    /// The properties read from the database's property table: a missing
    /// uuid or display name reads as empty, a missing type as `local`, and
    /// a missing password hash means no password.
    pub fn from_stored(
        uuid: Option<String>,
        display_name: Option<String>,
        db_type: Option<String>,
        password_hash: Option<String>,
    ) -> (r: DbProperties)
        ensures
            r.uuid@ == (match uuid {
                Some(s) => s@,
                None => Seq::<char>::empty(),
            }),
            r.display_name@ == (match display_name {
                Some(s) => s@,
                None => Seq::<char>::empty(),
            }),
            r.db_type@ == (match db_type {
                Some(s) => s@,
                None => "local"@,
            }),
            r.password_hash == password_hash,
    {
        proof {
            reveal_strlit("local");
        }
        DbProperties {
            uuid: match uuid {
                Some(s) => s,
                None => String::new(),
            },
            display_name: match display_name {
                Some(s) => s,
                None => String::new(),
            },
            db_type: match db_type {
                Some(s) => s,
                None => "local".to_owned(),
            },
            password_hash,
        }
    }
}

} // verus!
