use vstd::prelude::*;

verus! {

/// A point in time as plain values: whole seconds since the epoch, plus
/// nanoseconds within the second.  Stands in for a timezone-aware date-time
/// wherever metadata records one.
#[derive(Clone, Copy, Debug, PartialEq, Eq, Structural)]
pub struct Timestamp {
    pub seconds: i64,
    pub nanos: u32,
}

impl Timestamp {
    pub open spec fn wf(&self) -> bool {
        self.nanos < 1000000000
    }

    pub fn new(seconds: i64, nanos: u32) -> (t: Timestamp)
        requires
            nanos < 1000000000,
        ensures
            t.seconds == seconds,
            t.nanos == nanos,
            t.wf(),
    {
        Timestamp { seconds, nanos }
    }

    /// The epoch itself; the default creation time.
    pub fn epoch() -> (t: Timestamp)
        ensures
            t.seconds == 0,
            t.nanos == 0,
            t.wf(),
    {
        Timestamp { seconds: 0, nanos: 0 }
    }
}

} // verus!
