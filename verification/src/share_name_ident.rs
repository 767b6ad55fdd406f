use vstd::prelude::*;

verus! {

use crate::tenant_key::{TIdent, TIdentRaw, TenantResource};
use crate::kv_key::{ascii_bytes, is_plain_key_byte};

/// The meta-service key for a share, by name.
pub type ShareNameIdent = TIdent<Resource>;

/// The raw form of [`ShareNameIdent`], usable as a stored value.
pub type ShareNameIdentRaw = TIdentRaw<Resource>;

/// The key space `__fd_share/<tenant>/<name>`.
#[derive(Debug, Clone, Copy, PartialEq, Eq)]
pub struct Resource;

impl TenantResource for Resource {
    open spec fn prefix_spec() -> Seq<char> {
        "__fd_share"@
    }

    open spec fn has_tenant_spec() -> bool {
        true
    }

    proof fn lemma_prefix_wf() {
        reveal_strlit("__fd_share");
        assert forall|i: int| 0 <= i < Self::prefix_spec().len() implies is_plain_key_byte(
            #[trigger] ascii_bytes(Self::prefix_spec())[i],
        ) by {
            assert(ascii_bytes(Self::prefix_spec())[i] == Self::prefix_spec()[i] as u8);
        }
    }

    fn prefix() -> (s: &'static str) {
        proof {
            reveal_strlit("__fd_share");
        }
        "__fd_share"
    }

    fn has_tenant() -> (b: bool) {
        true
    }
}

impl ShareNameIdent {
    pub fn share_name(&self) -> (r: &str)
        ensures
            r@ == self.name@,
    {
        self.name.as_str()
    }
}

impl ShareNameIdentRaw {
    pub fn share_name(&self) -> (r: &str)
        ensures
            r@ == self.name@,
    {
        self.name.as_str()
    }
}

} // verus!
