use vstd::prelude::*;

verus! {

use crate::error::ErrorCode;

/// The readiness a processor reports for itself.
///
/// `NeedData` means blocked on an upstream port, `NeedConsume` blocked on a
/// downstream port, `Sync` ready for in-place CPU work, `Async` ready for
/// work that must be offloaded, and `Finished` done for good.
#[derive(Clone, Copy, Debug, PartialEq, Eq, Structural)]
pub enum Event {
    NeedData,
    NeedConsume,
    Sync,
    Async,
    Finished,
}

/// The surface an operator implementation exposes to the scheduler.  The
/// model executor drives the concrete node kinds of the graph directly;
/// this trait is the contract outside operator implementations write to.
///
/// `process` performs one bounded unit of CPU work and must not block;
/// `async_process` performs one unit of offloadable work, and its result is
/// delivered back through the executor's completion queue rather than by
/// mutating shared state.  The scheduler guarantees that the three methods
/// of one processor are never invoked concurrently.
pub trait Processor {
    fn name(&self) -> &'static str;

    fn event(&mut self) -> Event;

    fn process(&mut self) -> Result<(), ErrorCode>;

    fn async_process(&mut self) -> Result<(), ErrorCode>;
}

} // verus!
