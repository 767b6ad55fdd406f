use vstd::prelude::*;

verus! {

use vstd::string::StringSliceAdditionalSpecFns;
use crate::catalog_name_ident::CatalogNameIdent;
use crate::kv_key::{ascii_bytes, u64_key_bytes, u64_key_string, parse_u64_key, split_slash, seg_to_u64, KeyError};
use crate::storage::StorageParams;
use crate::tenant::Tenant;
use crate::timestamp::Timestamp;

// The request and reply types of the catalog metadata API.

/// The engine family a catalog belongs to.
#[derive(Clone, Copy, Debug, PartialEq, Eq, Structural, Hash)]
pub enum CatalogType {
    Default,
    Hive,
    Iceberg,
}

/// How a catalog was created: the built-in default, or an external engine
/// with its connection options.
#[derive(Debug, PartialEq, Eq)]
pub enum CatalogOption {
    /// The default catalog; creating another one is not allowed.
    Default,
    Hive(HiveCatalogOption),
    Iceberg(IcebergCatalogOption),
}

impl CatalogOption {
    pub fn catalog_type(&self) -> (r: CatalogType)
        ensures
            self is Default ==> r == CatalogType::Default,
            self is Hive ==> r == CatalogType::Hive,
            self is Iceberg ==> r == CatalogType::Iceberg,
    {
        match self {
            CatalogOption::Default => CatalogType::Default,
            CatalogOption::Hive(_) => CatalogType::Hive,
            CatalogOption::Iceberg(_) => CatalogType::Iceberg,
        }
    }
}

/// Connection options of a Hive catalog.
#[derive(Debug, PartialEq, Eq)]
pub struct HiveCatalogOption {
    pub address: String,
    pub storage_params: Option<Box<StorageParams>>,
}

/// Connection options of an Iceberg catalog.
#[derive(Debug, PartialEq, Eq)]
pub struct IcebergCatalogOption {
    pub storage_params: Box<StorageParams>,
}

/// A catalog's identity as plain values, usable inside stored values.
#[derive(Debug, PartialEq, Eq)]
pub struct CatalogName {
    pub tenant: String,
    pub catalog_name: String,
}

/// Everything stored about a catalog besides its name.
#[derive(Debug, PartialEq, Eq)]
pub struct CatalogMeta {
    pub catalog_option: CatalogOption,
    pub created_on: Timestamp,
}

/// Request to create a catalog under a tenant.
#[derive(Debug, PartialEq, Eq)]
pub struct CreateCatalogReq {
    pub if_not_exists: bool,
    pub name_ident: CatalogNameIdent,
    pub meta: CatalogMeta,
}

impl CreateCatalogReq {
    pub fn tenant(&self) -> (r: &str)
        ensures
            r@ == self.name_ident.tenant.name_spec(),
    {
        self.name_ident.tenant_name()
    }

    pub fn catalog_name(&self) -> (r: &str)
        ensures
            r@ == self.name_ident.name@,
    {
        self.name_ident.catalog_name()
    }
}

/// A catalog id usable as a metadata key.
#[derive(Debug, Clone, Copy, PartialEq, Eq, Structural, Default)]
pub struct CatalogId {
    pub catalog_id: u64,
}

impl CatalogId {
    pub fn new(catalog_id: u64) -> (r: CatalogId)
        ensures
            r.catalog_id == catalog_id,
    {
        CatalogId { catalog_id }
    }
}

/// The key for mapping a catalog id back to its name.
#[derive(Debug, Clone, Copy, PartialEq, Eq, Structural, Default)]
pub struct CatalogIdToName {
    pub catalog_id: u64,
}


impl CatalogId {
    /// Render as `__fd_catalog_by_id/<catalog_id>`.
    pub fn to_string_key(&self) -> (r: String)
        ensures
            ascii_bytes(r@) == u64_key_bytes("__fd_catalog_by_id"@, self.catalog_id),
    {
        proof {
            reveal_strlit("__fd_catalog_by_id");
        }
        u64_key_string("__fd_catalog_by_id", self.catalog_id)
    }

    /// Read a `__fd_catalog_by_id/<catalog_id>` key back; exact about every failure.
    pub fn from_str_key(s: &str) -> (r: Result<CatalogId, KeyError>)
        ensures
            ({
                let segs = split_slash(s.spec_bytes());
                match r {
                    Ok(v) => segs.len() == 2 && segs[0] == ascii_bytes("__fd_catalog_by_id"@)
                        && seg_to_u64(segs[1]) == Some(v.catalog_id),
                    Err(_) => !(segs.len() == 2 && segs[0] == ascii_bytes("__fd_catalog_by_id"@)
                        && seg_to_u64(segs[1]) is Some),
                }
            }),
    {
        let prefix = "__fd_catalog_by_id";
        proof {
            reveal_strlit("__fd_catalog_by_id");
            vstd::string::is_ascii_spec_bytes(prefix);
            assert(prefix.spec_bytes() =~= ascii_bytes(prefix@));
        }
        match parse_u64_key(prefix, s) {
            Ok(id) => Ok(CatalogId { catalog_id: id }),
            Err(e) => Err(e),
        }
    }
}

impl CatalogIdToName {
    /// Render as `__fd_catalog_id_to_name/<catalog_id>`.
    pub fn to_string_key(&self) -> (r: String)
        ensures
            ascii_bytes(r@) == u64_key_bytes("__fd_catalog_id_to_name"@, self.catalog_id),
    {
        proof {
            reveal_strlit("__fd_catalog_id_to_name");
        }
        u64_key_string("__fd_catalog_id_to_name", self.catalog_id)
    }

    /// Read a `__fd_catalog_id_to_name/<catalog_id>` key back; exact about every failure.
    pub fn from_str_key(s: &str) -> (r: Result<CatalogIdToName, KeyError>)
        ensures
            ({
                let segs = split_slash(s.spec_bytes());
                match r {
                    Ok(v) => segs.len() == 2 && segs[0] == ascii_bytes("__fd_catalog_id_to_name"@)
                        && seg_to_u64(segs[1]) == Some(v.catalog_id),
                    Err(_) => !(segs.len() == 2 && segs[0] == ascii_bytes("__fd_catalog_id_to_name"@)
                        && seg_to_u64(segs[1]) is Some),
                }
            }),
    {
        let prefix = "__fd_catalog_id_to_name";
        proof {
            reveal_strlit("__fd_catalog_id_to_name");
            vstd::string::is_ascii_spec_bytes(prefix);
            assert(prefix.spec_bytes() =~= ascii_bytes(prefix@));
        }
        match parse_u64_key(prefix, s) {
            Ok(id) => Ok(CatalogIdToName { catalog_id: id }),
            Err(e) => Err(e),
        }
    }
}

#[derive(Debug, Clone, Copy, PartialEq, Eq, Structural)]
pub struct CreateCatalogReply {
    pub catalog_id: u64,
}

/// Request to drop a catalog by name.
#[derive(Debug, PartialEq, Eq)]
pub struct DropCatalogReq {
    pub if_exists: bool,
    pub name_ident: CatalogNameIdent,
}

#[derive(Debug, Clone, Copy, PartialEq, Eq, Structural, Default)]
pub struct DropCatalogReply {}

/// Request to look up one catalog by name.
#[derive(Debug, PartialEq, Eq)]
pub struct GetCatalogReq {
    pub inner: CatalogNameIdent,
}

impl GetCatalogReq {
    pub fn new(ident: CatalogNameIdent) -> (r: GetCatalogReq)
        ensures
            r.inner == ident,
    {
        GetCatalogReq { inner: ident }
    }
}

/// Request to list a tenant's catalogs.
#[derive(Debug, PartialEq, Eq)]
pub struct ListCatalogReq {
    pub tenant: Tenant,
}

impl ListCatalogReq {
    pub fn new(tenant: Tenant) -> (r: ListCatalogReq)
        ensures
            r.tenant == tenant,
    {
        ListCatalogReq { tenant }
    }
}

} // verus!
