use vstd::prelude::*;

verus! {

use crate::tenant_key::{TIdent, TIdentRaw, TenantResource};
use crate::kv_key::{ascii_bytes, is_plain_key_byte};

/// The meta-service key for a catalog, by name.
pub type CatalogNameIdent = TIdent<Resource>;

/// The raw form of [`CatalogNameIdent`], usable as a stored value.
pub type CatalogNameIdentRaw = TIdentRaw<Resource>;

/// The key space `__fd_catalog/<tenant>/<name>`.
#[derive(Debug, Clone, Copy, PartialEq, Eq)]
pub struct Resource;

impl TenantResource for Resource {
    open spec fn prefix_spec() -> Seq<char> {
        "__fd_catalog"@
    }

    open spec fn has_tenant_spec() -> bool {
        true
    }

    proof fn lemma_prefix_wf() {
        reveal_strlit("__fd_catalog");
        assert forall|i: int| 0 <= i < Self::prefix_spec().len() implies is_plain_key_byte(
            #[trigger] ascii_bytes(Self::prefix_spec())[i],
        ) by {
            assert(ascii_bytes(Self::prefix_spec())[i] == Self::prefix_spec()[i] as u8);
        }
    }

    fn prefix() -> (s: &'static str) {
        proof {
            reveal_strlit("__fd_catalog");
        }
        "__fd_catalog"
    }

    fn has_tenant() -> (b: bool) {
        true
    }
}

impl CatalogNameIdent {
    pub fn catalog_name(&self) -> (r: &str)
        ensures
            r@ == self.name@,
    {
        self.name.as_str()
    }
}

impl CatalogNameIdentRaw {
    pub fn catalog_name(&self) -> (r: &str)
        ensures
            r@ == self.name@,
    {
        self.name.as_str()
    }
}

} // verus!
