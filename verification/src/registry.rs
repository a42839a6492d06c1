//! The registry of known databases: which database files the application
//! knows about, which one is the default, and how they are named.
//!
//! The registry lives in memory here; writing it to its configuration file
//! after a successful change is the caller's part.
use vstd::prelude::*;

use crate::lookup::{first_index, lemma_first_index, lemma_first_index_at, lemma_first_index_none};

verus! {

/// One database that the application knows about.
pub struct DbConnection {
    pub uuid: String,
    pub display_name: String,
    pub db_type: String,
    pub path: String,
    pub is_default: bool,
}

impl Clone for DbConnection {
    fn clone(&self) -> (r: Self)
        ensures
            r == *self,
    {
        DbConnection {
            uuid: self.uuid.clone(),
            display_name: self.display_name.clone(),
            db_type: self.db_type.clone(),
            path: self.path.clone(),
            is_default: self.is_default,
        }
    }
}

/// The persisted configuration: the default database path and the list of
/// known databases.
pub struct AppConfig {
    pub default_db_path: String,
    pub connections: Vec<DbConnection>,
}

impl AppConfig {
    /// The configuration used when none could be read: no default path and
    /// no connections.
    pub fn empty() -> (r: AppConfig)
        ensures
            r.default_db_path@ == Seq::<char>::empty(),
            r.connections@ == Seq::<DbConnection>::empty(),
    {
        AppConfig { default_db_path: String::new(), connections: Vec::new() }
    }
}

/// The registry: the configuration and the path of the file it is kept in.
pub struct Registry {
    config: AppConfig,
    config_path: String,
}

/// Whether a connection carries the given uuid.
pub open spec fn has_uuid(c: DbConnection, uuid: Seq<char>) -> bool {
    c.uuid@ == uuid
}

/// The index of the first connection with the given uuid.
pub open spec fn uuid_index(conns: Seq<DbConnection>, uuid: Seq<char>) -> Option<int> {
    first_index(conns, |c: DbConnection| has_uuid(c, uuid))
}

/// The index of the first connection marked as default.
pub open spec fn default_index(conns: Seq<DbConnection>) -> Option<int> {
    first_index(conns, |c: DbConnection| c.is_default)
}

/// The connections that do not carry the given uuid, in their order.
pub open spec fn without_uuid(conns: Seq<DbConnection>, uuid: Seq<char>) -> Seq<DbConnection>
    decreases conns.len(),
{
    if conns.len() == 0 {
        conns
    } else {
        let rest = without_uuid(conns.drop_last(), uuid);
        if has_uuid(conns.last(), uuid) {
            rest
        } else {
            rest.push(conns.last())
        }
    }
}

/// No two connections carry the same uuid.
pub open spec fn uuids_unique(conns: Seq<DbConnection>) -> bool {
    forall|i: int, j: int|
        0 <= i < conns.len() && 0 <= j < conns.len() && i != j ==> #[trigger] conns[i].uuid@
            != #[trigger] conns[j].uuid@
}

/// The message of a refused addition.
pub open spec fn msg_already_exists() -> Seq<char> {
    "数据库已存在"@
}

/// The message of a refused removal.
pub open spec fn msg_default_not_removable() -> Seq<char> {
    "默认数据库不可移除"@
}

/// The message of an update of an unknown database.
pub open spec fn msg_not_found() -> Seq<char> {
    "数据库未找到"@
}

fn find_uuid(conns: &Vec<DbConnection>, uuid: &str) -> (r: Option<usize>)
    ensures
        match r {
            Some(i) => i < conns.len() && uuid_index(conns@, uuid@) == Some(i as int),
            None => uuid_index(conns@, uuid@) is None,
        },
{
    let key = uuid.to_owned();
    let mut i: usize = 0;
    while i < conns.len()
        invariant
            i <= conns.len(),
            key@ == uuid@,
            forall|j: int| 0 <= j < i ==> !has_uuid(#[trigger] conns@[j], uuid@),
        decreases conns.len() - i,
    {
        if conns[i].uuid == key {
            proof {
                lemma_first_index_at(conns@, |c: DbConnection| has_uuid(c, uuid@), i as int);
            }
            return Some(i);
        }
        i = i + 1;
    }
    proof {
        lemma_first_index_none(conns@, |c: DbConnection| has_uuid(c, uuid@));
    }
    None
}

impl Registry {
    /// The configuration held by the registry.
    pub closed spec fn config_spec(&self) -> AppConfig {
        self.config
    }

    /// The connections held by the registry.
    pub open spec fn conns(&self) -> Seq<DbConnection> {
        self.config_spec().connections@
    }

    /// The path of the configuration file.
    pub closed spec fn path_spec(&self) -> Seq<char> {
        self.config_path@
    }

    /// The registry after its configuration file was read: the parsed
    /// configuration, or the empty one when the file was absent or could not
    /// be parsed.
    pub fn from_loaded(parsed: Option<AppConfig>, config_path: String) -> (r: Registry)
        ensures
            r.path_spec() == config_path@,
            match parsed {
                Some(c) => r.config_spec() == c,
                None => r.config_spec().default_db_path@ == Seq::<char>::empty() && r.conns()
                    == Seq::<DbConnection>::empty(),
            },
    {
        let config = match parsed {
            Some(c) => c,
            None => AppConfig::empty(),
        };
        Registry { config, config_path }
    }

    /// The configuration, to be written to the configuration file.
    pub fn config(&self) -> (r: &AppConfig)
        ensures
            *r == self.config_spec(),
    {
        &self.config
    }

    /// The path of the configuration file.
    pub fn config_path(&self) -> (r: &str)
        ensures
            r@ == self.path_spec(),
    {
        self.config_path.as_str()
    }

    /// The default database path.
    pub fn default_db_path(&self) -> (r: &str)
        ensures
            r@ == self.config_spec().default_db_path@,
    {
        self.config.default_db_path.as_str()
    }

    /// The known databases, in the order they were added.
    pub fn connections(&self) -> (r: &[DbConnection])
        ensures
            r@ == self.conns(),
    {
        self.config.connections.as_slice()
    }

    /// Replaces the default database path.
    pub fn set_default_db_path(&mut self, path: String)
        ensures
            final(self).config_spec().default_db_path == path,
            final(self).conns() == old(self).conns(),
            final(self).path_spec() == old(self).path_spec(),
    {
        self.config.default_db_path = path;
    }

    /// Adds a database. Refused, with nothing changed, when a database with
    /// the same uuid is already known.
    pub fn add_connection(&mut self, conn: DbConnection) -> (r: Result<(), String>)
        ensures
            final(self).path_spec() == old(self).path_spec(),
            final(self).config_spec().default_db_path == old(self).config_spec().default_db_path,
            uuid_index(old(self).conns(), conn.uuid@) is Some <==> r is Err,
            match r {
                Ok(()) => final(self).conns() == old(self).conns().push(conn),
                Err(e) => e@ == msg_already_exists() && final(self).conns() == old(self).conns(),
            },
    {
        if find_uuid(&self.config.connections, conn.uuid.as_str()).is_some() {
            proof {
                reveal_strlit("数据库已存在");
            }
            return Err("数据库已存在".to_owned());
        }
        self.config.connections.push(conn);
        Ok(())
    }

    /// Removes every database with the given uuid. Refused, with nothing
    /// changed, when the first database with that uuid is the default one.
    pub fn remove_connection(&mut self, uuid: &str) -> (r: Result<(), String>)
        ensures
            final(self).path_spec() == old(self).path_spec(),
            final(self).config_spec().default_db_path == old(self).config_spec().default_db_path,
            (match uuid_index(old(self).conns(), uuid@) {
                Some(i) => old(self).conns()[i].is_default,
                None => false,
            }) <==> r is Err,
            match r {
                Ok(()) => final(self).conns() == without_uuid(old(self).conns(), uuid@),
                Err(e) => e@ == msg_default_not_removable() && final(self).conns() == old(
                    self,
                ).conns(),
            },
    {
        if let Some(i) = find_uuid(&self.config.connections, uuid) {
            if self.config.connections[i].is_default {
                proof {
                    reveal_strlit("默认数据库不可移除");
                }
                return Err("默认数据库不可移除".to_owned());
            }
        }
        let key = uuid.to_owned();
        let old_conns = &self.config.connections;
        let mut kept: Vec<DbConnection> = Vec::new();
        let mut i: usize = 0;
        while i < old_conns.len()
            invariant
                i <= old_conns.len(),
                key@ == uuid@,
                kept@ == without_uuid(old_conns@.take(i as int), uuid@),
            decreases old_conns.len() - i,
        {
            assert(old_conns@.take(i + 1).drop_last() == old_conns@.take(i as int));
            if !(old_conns[i].uuid == key) {
                kept.push(old_conns[i].clone());
            }
            i = i + 1;
        }
        assert(old_conns@.take(old_conns.len() as int) == old_conns@);
        self.config.connections = kept;
        Ok(())
    }

    /// Renames the first database with the given uuid.
    pub fn update_display_name(&mut self, uuid: &str, name: String) -> (r: Result<(), String>)
        ensures
            final(self).path_spec() == old(self).path_spec(),
            final(self).config_spec().default_db_path == old(self).config_spec().default_db_path,
            uuid_index(old(self).conns(), uuid@) is None <==> r is Err,
            match uuid_index(old(self).conns(), uuid@) {
                Some(i) => final(self).conns() == old(self).conns().update(
                    i,
                    DbConnection { display_name: name, ..old(self).conns()[i] },
                ),
                None => r matches Err(e) && e@ == msg_not_found() && final(self).conns() == old(
                    self,
                ).conns(),
            },
    {
        match find_uuid(&self.config.connections, uuid) {
            Some(i) => {
                let mut c = self.config.connections[i].clone();
                c.display_name = name;
                self.config.connections.set(i, c);
                Ok(())
            },
            None => {
                proof {
                    reveal_strlit("数据库未找到");
                }
                Err("数据库未找到".to_owned())
            },
        }
    }

    /// Moves the first database with the given uuid to a new path.
    pub fn update_path(&mut self, uuid: &str, new_path: String) -> (r: Result<(), String>)
        ensures
            final(self).path_spec() == old(self).path_spec(),
            final(self).config_spec().default_db_path == old(self).config_spec().default_db_path,
            uuid_index(old(self).conns(), uuid@) is None <==> r is Err,
            match uuid_index(old(self).conns(), uuid@) {
                Some(i) => final(self).conns() == old(self).conns().update(
                    i,
                    DbConnection { path: new_path, ..old(self).conns()[i] },
                ),
                None => r matches Err(e) && e@ == msg_not_found() && final(self).conns() == old(
                    self,
                ).conns(),
            },
    {
        match find_uuid(&self.config.connections, uuid) {
            Some(i) => {
                let mut c = self.config.connections[i].clone();
                c.path = new_path;
                self.config.connections.set(i, c);
                Ok(())
            },
            None => {
                proof {
                    reveal_strlit("数据库未找到");
                }
                Err("数据库未找到".to_owned())
            },
        }
    }

    /// The first database with the given uuid.
    pub fn get_connection(&self, uuid: &str) -> (r: Option<&DbConnection>)
        ensures
            match uuid_index(self.conns(), uuid@) {
                Some(i) => r == Some(&self.conns()[i]),
                None => r is None,
            },
    {
        match find_uuid(&self.config.connections, uuid) {
            Some(i) => Some(&self.config.connections[i]),
            None => None,
        }
    }

    /// The first database marked as default.
    pub fn get_default_connection(&self) -> (r: Option<&DbConnection>)
        ensures
            match default_index(self.conns()) {
                Some(i) => r == Some(&self.conns()[i]),
                None => r is None,
            },
    {
        let conns = &self.config.connections;
        let mut i: usize = 0;
        while i < conns.len()
            invariant
                i <= conns.len(),
                conns@ == self.conns(),
                forall|j: int| 0 <= j < i ==> !(#[trigger] conns@[j]).is_default,
            decreases conns.len() - i,
        {
            if conns[i].is_default {
                proof {
                    lemma_first_index_at(conns@, |c: DbConnection| c.is_default, i as int);
                    assert(default_index(conns@) == Some(i as int));
                }
                return Some(&conns[i]);
            }
            i = i + 1;
        }
        proof {
            lemma_first_index_none(conns@, |c: DbConnection| c.is_default);
        }
        None
    }
}

/// What `without_uuid` keeps: exactly the connections that do not carry the
/// uuid.
pub proof fn lemma_without_uuid_contains(conns: Seq<DbConnection>, uuid: Seq<char>, c: DbConnection)
    ensures
        without_uuid(conns, uuid).contains(c) <==> (conns.contains(c) && !has_uuid(c, uuid)),
    decreases conns.len(),
{
    if conns.len() > 0 {
        let init = conns.drop_last();
        lemma_without_uuid_contains(init, uuid, c);
        assert(conns == init.push(conns.last()));
        if conns.contains(c) {
            let k = choose|k: int| 0 <= k < conns.len() && conns[k] == c;
            if k < conns.len() - 1 {
                assert(init[k] == c);
            }
        }
        if init.contains(c) {
            let k = choose|k: int| 0 <= k < init.len() && init[k] == c;
            assert(conns[k] == c);
        }
        let rest = without_uuid(init, uuid);
        if !has_uuid(conns.last(), uuid) {
            assert(rest.push(conns.last())[rest.len() as int] == conns.last());
            if rest.push(conns.last()).contains(c) {
                let k = choose|k: int| 0 <= k < rest.len() + 1 && rest.push(conns.last())[k] == c;
                if k < rest.len() {
                    assert(rest[k] == c);
                }
            }
            if rest.contains(c) {
                let k = choose|k: int| 0 <= k < rest.len() && rest[k] == c;
                assert(rest.push(conns.last())[k] == c);
            }
        }
    }
}

/// `without_uuid` keeps the order of the connections it keeps: it is a
/// subsequence, so distinct positions stay distinct.
pub proof fn lemma_without_uuid_unique(conns: Seq<DbConnection>, uuid: Seq<char>)
    requires
        uuids_unique(conns),
    ensures
        uuids_unique(without_uuid(conns, uuid)),
    decreases conns.len(),
{
    if conns.len() > 0 {
        let init = conns.drop_last();
        assert(uuids_unique(init)) by {
            assert forall|i: int, j: int|
                0 <= i < init.len() && 0 <= j < init.len() && i != j implies #[trigger] init[i].uuid@
                != #[trigger] init[j].uuid@ by {
                assert(init[i] == conns[i] && init[j] == conns[j]);
            }
        }
        lemma_without_uuid_unique(init, uuid);
        let rest = without_uuid(init, uuid);
        let last = conns.last();
        if !has_uuid(last, uuid) {
            let r = rest.push(last);
            assert forall|i: int, j: int|
                0 <= i < r.len() && 0 <= j < r.len() && i != j implies #[trigger] r[i].uuid@
                != #[trigger] r[j].uuid@ by {
                if i == rest.len() || j == rest.len() {
                    let k = if i == rest.len() { j } else { i };
                    assert(rest.contains(rest[k]));
                    lemma_without_uuid_contains(init, uuid, rest[k]);
                    let m = choose|m: int| 0 <= m < init.len() && init[m] == rest[k];
                    assert(conns[m] == init[m]);
                    assert(conns[conns.len() - 1] == last);
                    assert(conns[m].uuid@ != conns[conns.len() - 1].uuid@);
                } else {
                    assert(r[i] == rest[i] && r[j] == rest[j]);
                }
            }
        }
    }
}

/// After a successful `add_connection`, looking its uuid up finds the added
/// connection.
pub proof fn lemma_added_connection_is_found(conns: Seq<DbConnection>, conn: DbConnection)
    requires
        uuid_index(conns, conn.uuid@) is None,
    ensures
        uuid_index(conns.push(conn), conn.uuid@) == Some(conns.len() as int),
{
    let p = |c: DbConnection| has_uuid(c, conn.uuid@);
    lemma_first_index(conns, p);
    let s = conns.push(conn);
    assert forall|j: int| 0 <= j < conns.len() implies !p(#[trigger] s[j]) by {
        assert(s[j] == conns[j]);
        assert(!p(conns[j]));
    }
    lemma_first_index_at(s, p, conns.len() as int);
}

/// After a successful `remove_connection`, no connection carries the uuid.
pub proof fn lemma_removed_connection_is_gone(conns: Seq<DbConnection>, uuid: Seq<char>)
    ensures
        uuid_index(without_uuid(conns, uuid), uuid) is None,
{
    let rest = without_uuid(conns, uuid);
    let p = |c: DbConnection| has_uuid(c, uuid);
    assert forall|j: int| 0 <= j < rest.len() implies !p(#[trigger] rest[j]) by {
        assert(rest.contains(rest[j]));
        lemma_without_uuid_contains(conns, uuid, rest[j]);
    }
    lemma_first_index_none(rest, p);
}

/// Adding a connection whose uuid is not known yet keeps uuids unique.
pub proof fn lemma_add_keeps_uuids_unique(conns: Seq<DbConnection>, conn: DbConnection)
    requires
        uuids_unique(conns),
        uuid_index(conns, conn.uuid@) is None,
    ensures
        uuids_unique(conns.push(conn)),
{
    let p = |c: DbConnection| has_uuid(c, conn.uuid@);
    lemma_first_index(conns, p);
    let s = conns.push(conn);
    assert forall|i: int, j: int|
        0 <= i < s.len() && 0 <= j < s.len() && i != j implies #[trigger] s[i].uuid@
        != #[trigger] s[j].uuid@ by {
        if i == conns.len() {
            assert(!p(conns[j]));
        } else if j == conns.len() {
            assert(!p(conns[i]));
        } else {
            assert(s[i] == conns[i] && s[j] == conns[j]);
        }
    }
}

/// A successful removal keeps uuids unique, and, when uuids are unique,
/// every default connection stays known.
pub proof fn lemma_remove_keeps_defaults(conns: Seq<DbConnection>, uuid: Seq<char>)
    requires
        uuids_unique(conns),
        match uuid_index(conns, uuid) {
            Some(i) => !conns[i].is_default,
            None => true,
        },
    ensures
        uuids_unique(without_uuid(conns, uuid)),
        forall|c: DbConnection|
            conns.contains(c) && c.is_default ==> #[trigger] without_uuid(conns, uuid).contains(c),
{
    lemma_without_uuid_unique(conns, uuid);
    let p = |c: DbConnection| has_uuid(c, uuid);
    lemma_first_index(conns, p);
    assert forall|c: DbConnection|
        conns.contains(c) && c.is_default implies #[trigger] without_uuid(conns, uuid).contains(c) by {
        lemma_without_uuid_contains(conns, uuid, c);
        let k = choose|k: int| 0 <= k < conns.len() && conns[k] == c;
        if has_uuid(c, uuid) {
            let i = first_index(conns, p).unwrap();
            if i != k {
                assert(conns[i].uuid@ != conns[k].uuid@);
            }
        }
    }
}

/// Renaming or moving a database keeps its uuid, so uuids stay unique.
pub proof fn lemma_update_keeps_uuids_unique(conns: Seq<DbConnection>, i: int, c: DbConnection)
    requires
        uuids_unique(conns),
        0 <= i < conns.len(),
        c.uuid == conns[i].uuid,
    ensures
        uuids_unique(conns.update(i, c)),
{
    let s = conns.update(i, c);
    assert forall|a: int, b: int|
        0 <= a < s.len() && 0 <= b < s.len() && a != b implies #[trigger] s[a].uuid@
        != #[trigger] s[b].uuid@ by {
        assert(s[a].uuid == conns[a].uuid);
        assert(s[b].uuid == conns[b].uuid);
    }
}

} // verus!
