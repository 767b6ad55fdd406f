use vstd::prelude::*;

verus! {

use crate::share_meta::ShareSpec;

// Where a tenant's share metadata files live under the storage prefix, and
// the serializable collection of share specs.

/// `_share_config/<tenant>/share_specs.json`
pub fn get_share_spec_location(tenant: &str) -> (r: String)
    ensures
        r@ == "_share_config/"@ + tenant@ + "/share_specs.json"@,
{
    let mut s = String::new();
    s.append("_share_config/");
    s.append(tenant);
    s.append("/share_specs.json");
    s
}

/// `_share_config/<tenant>/<share_name>_table_info.json`
pub fn share_table_info_location(tenant: &str, share_name: &str) -> (r: String)
    ensures
        r@ == "_share_config/"@ + tenant@ + "/"@ + share_name@ + "_table_info.json"@,
{
    let mut s = String::new();
    s.append("_share_config/");
    s.append(tenant);
    s.append("/");
    s.append(share_name);
    s.append("_table_info.json");
    s
}

/// `<database_id>/`: the prefix that covers all data of one database.
pub fn database_storage_prefix(database_id: u64) -> (r: String)
    ensures
        r@ == crate::kv_key::chars_of_bytes(crate::kv_key::dec_digits(database_id as nat)) + "/"@,
{
    let mut buf: Vec<u8> = Vec::new();
    crate::kv_key::push_dec_u64(&mut buf, database_id);
    proof {
        crate::kv_key::lemma_dec_digits_wf(database_id as nat);
        assert(Seq::<u8>::empty() + crate::kv_key::dec_digits(database_id as nat)
            =~= crate::kv_key::dec_digits(database_id as nat));
    }
    let mut s = crate::kv_key::string_from_ascii_bytes(buf);
    s.append("/");
    s
}

/// `<database_id>/<table_id>/`: the prefix that covers all data of one
/// table.
pub fn table_storage_prefix(database_id: u64, table_id: u64) -> (r: String)
    ensures
        r@ == crate::kv_key::chars_of_bytes(crate::kv_key::dec_digits(database_id as nat)) + "/"@
            + crate::kv_key::chars_of_bytes(crate::kv_key::dec_digits(table_id as nat)) + "/"@,
{
    let mut s = database_storage_prefix(database_id);
    let t = database_storage_prefix(table_id);
    s.append(t.as_str());
    s
}

/// The prefix path covering all data of one shared database: the storage
/// root (which already ends in `/`) followed by the database prefix.
pub fn shared_database_prefix(storage_root: &str, database_id: u64) -> (r: String)
    ensures
        r@ == storage_root@ + crate::kv_key::chars_of_bytes(
            crate::kv_key::dec_digits(database_id as nat),
        ) + "/"@,
{
    let mut s = storage_root.to_owned();
    let p = database_storage_prefix(database_id);
    s.append(p.as_str());
    s
}

/// The prefix path covering all data of one shared table.
pub fn shared_table_prefix(storage_root: &str, database_id: u64, table_id: u64) -> (r: String)
    ensures
        r@ == storage_root@ + crate::kv_key::chars_of_bytes(
            crate::kv_key::dec_digits(database_id as nat),
        ) + "/"@ + crate::kv_key::chars_of_bytes(crate::kv_key::dec_digits(table_id as nat))
            + "/"@,
{
    let mut s = storage_root.to_owned();
    let p = table_storage_prefix(database_id, table_id);
    s.append(p.as_str());
    s
}

/// The collection of share specs that is written out as one document,
/// keyed by share name.
#[derive(Debug, PartialEq, Eq, Default)]
pub struct ShareSpecVec {
    share_specs: Vec<(String, ShareSpec)>,
}

impl ShareSpecVec {
    pub closed spec fn entries(&self) -> Seq<(String, ShareSpec)> {
        self.share_specs@
    }

    pub fn new() -> (r: ShareSpecVec)
        ensures
            r.entries().len() == 0,
    {
        ShareSpecVec { share_specs: Vec::new() }
    }

    /// File one spec under its share name.
    pub fn insert(&mut self, name: String, spec: ShareSpec)
        ensures
            final(self).entries() == old(self).entries().push((name, spec)),
    {
        self.share_specs.push((name, spec));
    }

    pub fn len(&self) -> (r: usize)
        ensures
            r == self.entries().len(),
    {
        self.share_specs.len()
    }

    pub fn entry(&self, i: usize) -> (r: &(String, ShareSpec))
        requires
            i < self.entries().len(),
        ensures
            *r == self.entries()[i as int],
    {
        &self.share_specs[i]
    }
}

} // verus!
