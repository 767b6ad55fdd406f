use vstd::prelude::*;

verus! {

use crate::tenant_key::{TIdent, TIdentRaw, TenantResource};
use crate::kv_key::{ascii_bytes, is_plain_key_byte};

/// Identifies a background job by its numeric id.
pub type BackgroundJobIdIdent = TIdent<Resource, u64>;

/// The raw form of [`BackgroundJobIdIdent`], usable as a stored value.
pub type BackgroundJobIdIdentRaw = TIdentRaw<Resource, u64>;

/// The key space `__fd_background_job_by_id/<job_id>`; it carries no tenant
/// segment.
#[derive(Debug, Clone, Copy, PartialEq, Eq)]
pub struct Resource;

impl TenantResource for Resource {
    open spec fn prefix_spec() -> Seq<char> {
        "__fd_background_job_by_id"@
    }

    open spec fn has_tenant_spec() -> bool {
        false
    }

    proof fn lemma_prefix_wf() {
        reveal_strlit("__fd_background_job_by_id");
        assert forall|i: int| 0 <= i < Self::prefix_spec().len() implies is_plain_key_byte(
            #[trigger] ascii_bytes(Self::prefix_spec())[i],
        ) by {
            assert(ascii_bytes(Self::prefix_spec())[i] == Self::prefix_spec()[i] as u8);
        }
    }

    fn prefix() -> (s: &'static str) {
        proof {
            reveal_strlit("__fd_background_job_by_id");
        }
        "__fd_background_job_by_id"
    }

    fn has_tenant() -> (b: bool) {
        false
    }
}

impl BackgroundJobIdIdent {
    pub fn job_id(&self) -> (r: u64)
        ensures
            r == self.name,
    {
        *self.name()
    }
}

impl BackgroundJobIdIdentRaw {
    pub fn job_id(&self) -> (r: u64)
        ensures
            r == self.name,
    {
        *self.name()
    }
}

} // verus!
