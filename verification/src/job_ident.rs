use vstd::prelude::*;

verus! {

use crate::tenant_key::{TIdent, TIdentRaw, TenantResource};
use crate::kv_key::{ascii_bytes, is_plain_key_byte};

/// The meta-service key for a background job, by name.
pub type BackgroundJobIdent = TIdent<Resource>;

/// The raw form of [`BackgroundJobIdent`], usable as a stored value.
pub type BackgroundJobIdentRaw = TIdentRaw<Resource>;

/// The key space `__fd_background_job/<tenant>/<name>`.
#[derive(Debug, Clone, Copy, PartialEq, Eq)]
pub struct Resource;

impl TenantResource for Resource {
    open spec fn prefix_spec() -> Seq<char> {
        "__fd_background_job"@
    }

    open spec fn has_tenant_spec() -> bool {
        true
    }

    proof fn lemma_prefix_wf() {
        reveal_strlit("__fd_background_job");
        assert forall|i: int| 0 <= i < Self::prefix_spec().len() implies is_plain_key_byte(
            #[trigger] ascii_bytes(Self::prefix_spec())[i],
        ) by {
            assert(ascii_bytes(Self::prefix_spec())[i] == Self::prefix_spec()[i] as u8);
        }
    }

    fn prefix() -> (s: &'static str) {
        proof {
            reveal_strlit("__fd_background_job");
        }
        "__fd_background_job"
    }

    fn has_tenant() -> (b: bool) {
        true
    }
}

} // verus!
