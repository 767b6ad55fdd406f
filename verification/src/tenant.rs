use vstd::prelude::*;

verus! {

/// The tenant a metadata key belongs to.  A usable tenant name is non-empty
/// ASCII text.
#[derive(Debug, Clone, PartialEq, Eq, Hash)]
pub struct Tenant {
    tenant: String,
}

impl Tenant {
    /// The tenant's name as a character sequence.
    pub closed spec fn name_spec(&self) -> Seq<char> {
        self.tenant@
    }

    pub open spec fn wf(&self) -> bool {
        self.name_spec().len() > 0
    }

    /// Build a tenant from a literal name.
    pub fn new_literal(name: &str) -> (r: Tenant)
        requires
            name@.len() > 0,
        ensures
            r.name_spec() == name@,
            r.wf(),
    {
        Tenant { tenant: name.to_owned() }
    }

    /// Build a tenant from an owned non-empty name.
    pub fn new_nonempty(name: String) -> (r: Tenant)
        requires
            name@.len() > 0,
        ensures
            r.name_spec() == name@,
            r.wf(),
    {
        Tenant { tenant: name }
    }

    pub fn tenant_name(&self) -> (r: &str)
        ensures
            r@ == self.name_spec(),
    {
        self.tenant.as_str()
    }
}

} // verus!
