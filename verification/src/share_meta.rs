use vstd::prelude::*;

verus! {

use crate::timestamp::Timestamp;

/// The database a share exposes.
#[derive(Debug, PartialEq, Eq)]
pub struct ShareDatabaseSpec {
    pub name: String,
    pub id: u64,
}

/// One table a share exposes.
#[derive(Debug, PartialEq, Eq)]
pub struct ShareTableSpec {
    pub name: String,
    pub database_id: u64,
    pub table_id: u64,
    pub presigned_url_timeout: String,
}

/// Everything a share grants: its identity, the shared database and tables,
/// the tenants allowed in, and the granted privilege bits.
#[derive(Debug, PartialEq, Eq)]
pub struct ShareSpec {
    pub name: String,
    pub share_id: u64,
    pub version: u64,
    pub database: Option<ShareDatabaseSpec>,
    pub tables: Vec<ShareTableSpec>,
    pub tenants: Vec<String>,
    pub db_privileges: Option<u64>,
    pub comment: Option<String>,
    pub share_on: Option<Timestamp>,
}

} // verus!
