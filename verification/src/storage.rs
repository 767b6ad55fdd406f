use vstd::prelude::*;

verus! {

/// Where a catalog or table keeps its data, reduced to the plain values the
/// metadata layer reads: the backend kind and its root location.
#[derive(Clone, Debug, PartialEq, Eq)]
pub enum StorageParams {
    /// A local filesystem root.
    Fs { root: String },
    /// An object-store bucket and a root prefix inside it.
    S3 { bucket: String, root: String },
    /// Purely in-memory storage.
    Memory,
}

impl StorageParams {
    /// Whether the parameters name a persistent backend.
    pub fn is_persistent(&self) -> (r: bool)
        ensures
            r == !(self is Memory),
    {
        !matches!(self, StorageParams::Memory)
    }
}

} // verus!
