use vstd::prelude::*;

verus! {

use vstd::string::StringSliceAdditionalSpecFns;
use crate::database_name_ident::DatabaseNameIdent;
use crate::share_name_ident::ShareNameIdentRaw;
use crate::timestamp::Timestamp;
use crate::kv_key::{ascii_bytes, u64_key_bytes, u64_key_string, parse_u64_key, split_slash, seg_to_u64, KeyError};
use crate::share_meta::ShareSpec;
use crate::tenant::Tenant;

// The request and reply types of the database metadata API, with the
// id-list bookkeeping that tracks a database name's history of ids.

/// A database id paired with the metadata sequence number it was read at.
#[derive(Debug, Clone, Copy, PartialEq, Eq, Structural, Default)]
pub struct DatabaseIdent {
    pub db_id: u64,
    pub seq: u64,
}

/// A database id usable as a metadata key.
#[derive(Debug, Clone, Copy, PartialEq, Eq, Structural, Default)]
pub struct DatabaseId {
    pub db_id: u64,
}

impl DatabaseId {
    pub fn new(db_id: u64) -> (r: DatabaseId)
        ensures
            r.db_id == db_id,
    {
        DatabaseId { db_id }
    }
}

/// The key for mapping a database id back to its name.
#[derive(Debug, Clone, Copy, PartialEq, Eq, Structural, Default)]
pub struct DatabaseIdToName {
    pub db_id: u64,
}

impl DatabaseIdToName {
    pub fn new(db_id: u64) -> (r: DatabaseIdToName)
        ensures
            r.db_id == db_id,
    {
        DatabaseIdToName { db_id }
    }
}


impl DatabaseId {
    /// Render as `__fd_database_by_id/<db_id>`.
    pub fn to_string_key(&self) -> (r: String)
        ensures
            ascii_bytes(r@) == u64_key_bytes("__fd_database_by_id"@, self.db_id),
    {
        proof {
            reveal_strlit("__fd_database_by_id");
        }
        u64_key_string("__fd_database_by_id", self.db_id)
    }

    /// Read a `__fd_database_by_id/<db_id>` key back; exact about every failure.
    pub fn from_str_key(s: &str) -> (r: Result<DatabaseId, KeyError>)
        ensures
            ({
                let segs = split_slash(s.spec_bytes());
                match r {
                    Ok(v) => segs.len() == 2 && segs[0] == ascii_bytes("__fd_database_by_id"@)
                        && seg_to_u64(segs[1]) == Some(v.db_id),
                    Err(_) => !(segs.len() == 2 && segs[0] == ascii_bytes("__fd_database_by_id"@)
                        && seg_to_u64(segs[1]) is Some),
                }
            }),
    {
        let prefix = "__fd_database_by_id";
        proof {
            reveal_strlit("__fd_database_by_id");
            vstd::string::is_ascii_spec_bytes(prefix);
            assert(prefix.spec_bytes() =~= ascii_bytes(prefix@));
        }
        match parse_u64_key(prefix, s) {
            Ok(id) => Ok(DatabaseId { db_id: id }),
            Err(e) => Err(e),
        }
    }
}

impl DatabaseIdToName {
    /// Render as `__fd_database_id_to_name/<db_id>`.
    pub fn to_string_key(&self) -> (r: String)
        ensures
            ascii_bytes(r@) == u64_key_bytes("__fd_database_id_to_name"@, self.db_id),
    {
        proof {
            reveal_strlit("__fd_database_id_to_name");
        }
        u64_key_string("__fd_database_id_to_name", self.db_id)
    }

    /// Read a `__fd_database_id_to_name/<db_id>` key back; exact about every failure.
    pub fn from_str_key(s: &str) -> (r: Result<DatabaseIdToName, KeyError>)
        ensures
            ({
                let segs = split_slash(s.spec_bytes());
                match r {
                    Ok(v) => segs.len() == 2 && segs[0] == ascii_bytes("__fd_database_id_to_name"@)
                        && seg_to_u64(segs[1]) == Some(v.db_id),
                    Err(_) => !(segs.len() == 2 && segs[0] == ascii_bytes("__fd_database_id_to_name"@)
                        && seg_to_u64(segs[1]) is Some),
                }
            }),
    {
        let prefix = "__fd_database_id_to_name";
        proof {
            reveal_strlit("__fd_database_id_to_name");
            vstd::string::is_ascii_spec_bytes(prefix);
            assert(prefix.spec_bytes() =~= ascii_bytes(prefix@));
        }
        match parse_u64_key(prefix, s) {
            Ok(id) => Ok(DatabaseIdToName { db_id: id }),
            Err(e) => Err(e),
        }
    }
}

/// The history of ids a database name has carried, oldest first.
#[derive(Debug, Clone, PartialEq, Eq, Default)]
pub struct DbIdList {
    pub id_list: Vec<u64>,
}

impl DbIdList {
    pub fn new() -> (r: DbIdList)
        ensures
            r.id_list@.len() == 0,
    {
        DbIdList { id_list: Vec::new() }
    }

    pub fn len(&self) -> (r: usize)
        ensures
            r == self.id_list@.len(),
    {
        self.id_list.len()
    }

    pub fn id_list(&self) -> (r: &Vec<u64>)
        ensures
            r@ == self.id_list@,
    {
        &self.id_list
    }

    pub fn append(&mut self, table_id: u64)
        ensures
            final(self).id_list@ == old(self).id_list@.push(table_id),
    {
        self.id_list.push(table_id);
    }

    pub fn is_empty(&self) -> (r: bool)
        ensures
            r == (self.id_list@.len() == 0),
    {
        self.id_list.len() == 0
    }

    pub fn pop(&mut self) -> (r: Option<u64>)
        ensures
            old(self).id_list@.len() == 0 ==> r is None && final(self).id_list@ == old(self).id_list@,
            old(self).id_list@.len() > 0 ==> r == Some(old(self).id_list@.last()) && final(self).id_list@ == old(self).id_list@.drop_last(),
    {
        self.id_list.pop()
    }

    pub fn last(&mut self) -> (r: Option<&u64>)
        ensures
            final(self).id_list@ == old(self).id_list@,
            old(self).id_list@.len() == 0 ==> r is None,
            old(self).id_list@.len() > 0 ==> r is Some && *r.unwrap() == old(self).id_list@.last(),
    {
        self.id_list.last()
    }
}

/// Everything stored about a database besides its name: engine, options,
/// lifecycle timestamps, and the shares it participates in.
#[derive(Debug, PartialEq, Eq)]
pub struct DatabaseMeta {
    pub engine: String,
    pub engine_options: Vec<(String, String)>,
    pub options: Vec<(String, String)>,
    pub created_on: Timestamp,
    pub updated_on: Timestamp,
    pub comment: String,
    /// Set when the database was dropped; absent in creation requests.
    pub drop_on: Option<Timestamp>,
    /// The ids of the shares this database is shared by.
    pub shared_by: Vec<u64>,
    pub from_share: Option<ShareNameIdentRaw>,
}

impl DatabaseMeta {
    /// An empty metadata record created at the epoch.
    pub fn new_empty() -> (r: DatabaseMeta)
        ensures
            r.engine@.len() == 0,
            r.engine_options@.len() == 0,
            r.options@.len() == 0,
            r.comment@.len() == 0,
            r.drop_on is None,
            r.shared_by@.len() == 0,
            r.from_share is None,
    {
        DatabaseMeta {
            engine: String::new(),
            engine_options: Vec::new(),
            options: Vec::new(),
            created_on: Timestamp::epoch(),
            updated_on: Timestamp::epoch(),
            comment: String::new(),
            drop_on: None,
            shared_by: Vec::new(),
            from_share: None,
        }
    }
}

/// Request to create a database under a tenant.
#[derive(Debug, PartialEq, Eq)]
pub struct CreateDatabaseReq {
    pub name_ident: DatabaseNameIdent,
    pub meta: DatabaseMeta,
}

/// Reply to creating a database: its id, and any share specs whose stored
/// copies must be refreshed.
#[derive(Debug, PartialEq, Eq)]
pub struct CreateDatabaseReply {
    pub db_id: u64,
    pub spec_vec: Option<Vec<ShareSpec>>,
}

/// Request to rename a database within its tenant.
#[derive(Debug, PartialEq, Eq)]
pub struct RenameDatabaseReq {
    pub if_exists: bool,
    pub name_ident: DatabaseNameIdent,
    pub new_db_name: String,
}

#[derive(Debug, Clone, Copy, PartialEq, Eq, Structural, Default)]
pub struct RenameDatabaseReply {}

/// Request to drop a database by name.
#[derive(Debug, PartialEq, Eq)]
pub struct DropDatabaseReq {
    pub if_exists: bool,
    pub name_ident: DatabaseNameIdent,
}

#[derive(Debug, PartialEq, Eq)]
pub struct DropDatabaseReply {
    pub spec_vec: Option<Vec<ShareSpec>>,
}

/// Request to bring back a dropped database.
#[derive(Debug, PartialEq, Eq)]
pub struct UndropDatabaseReq {
    pub name_ident: DatabaseNameIdent,
}

impl UndropDatabaseReq {
    pub fn tenant(&self) -> (r: &Tenant)
        ensures
            r == &self.name_ident.tenant,
    {
        self.name_ident.tenant()
    }

    pub fn db_name(&self) -> (r: &str)
        ensures
            r@ == self.name_ident.name@,
    {
        self.name_ident.database_name()
    }
}

#[derive(Debug, Clone, Copy, PartialEq, Eq, Structural, Default)]
pub struct UndropDatabaseReply {}

/// Request to look up one database by name.
#[derive(Debug, PartialEq, Eq)]
pub struct GetDatabaseReq {
    pub inner: DatabaseNameIdent,
}

impl GetDatabaseReq {
    pub fn new(tenant: Tenant, db_name: &str) -> (r: GetDatabaseReq)
        ensures
            r.inner.tenant == tenant,
            r.inner.name@ == db_name@,
    {
        GetDatabaseReq { inner: DatabaseNameIdent::new(tenant, db_name) }
    }
}

/// Filter for listing databases.
#[derive(Debug, Clone, Copy, PartialEq, Eq, Structural)]
pub enum DatabaseInfoFilter {
    /// Include databases that were dropped but not yet vacuumed.
    IncludeDropped,
}

/// Request to list a tenant's databases.
#[derive(Debug, PartialEq, Eq)]
pub struct ListDatabaseReq {
    pub tenant: Tenant,
    pub filter: Option<DatabaseInfoFilter>,
}

impl ListDatabaseReq {
    pub fn tenant(&self) -> (r: &Tenant)
        ensures
            r == &self.tenant,
    {
        &self.tenant
    }
}

} // verus!
