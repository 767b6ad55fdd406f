use vstd::prelude::*;

verus! {

use crate::error::{ErrorCode, ErrorKind};
use crate::processor::Event;

// The running dataflow graph: an arena of processors indexed by position,
// connected by single-slot ports.  Every edge is one output-port-to-input-port
// pairing; a port never buffers more than one unit of data.

/// What a graph node does with the units that flow through it.
#[derive(Clone, Copy, Debug, PartialEq, Eq, Structural)]
pub enum ProcKind {
    Source,
    Transform,
    Sink,
}

/// One edge of the graph: a single-slot port from processor `from` to
/// processor `to`, with its end-of-stream flag and transfer counters.
#[derive(Clone, Copy, Debug, PartialEq, Eq)]
pub struct Edge {
    pub from: usize,
    pub to: usize,
    /// The single buffered unit; `None` when the port is empty.
    pub data: Option<u64>,
    /// Set once no more data will ever arrive; never cleared.
    pub finished: bool,
    /// How many units were ever pushed into this port.
    pub pushed: u64,
    /// How many units were ever pulled out of this port.
    pub pulled: u64,
}

/// One processor of the model: its operator kind, its adjacent edges, and the
/// state its work evolves.
#[derive(Clone, Debug, PartialEq, Eq)]
pub struct ProcessorNode {
    pub kind: ProcKind,
    /// Edge indices whose `to` end is this node.
    pub inputs: Vec<usize>,
    /// Edge indices whose `from` end is this node.
    pub outputs: Vec<usize>,
    /// For a source: how many units it emits in total.
    pub total: u64,
    /// For a source: how many units it has emitted so far.
    pub emitted: u64,
    /// How many `process`/`async_process` calls this node has taken.
    pub calls: u64,
    /// For a sink: the units it has consumed, in arrival order.
    pub received: Vec<u64>,
    /// Fail on exactly this call ordinal; `0` means never fail.
    pub fail_at: u64,
    /// Every `async_cadence`-th call reports `Async`; `0` means all `Sync`.
    pub async_cadence: u64,
}

/// The DAG of processors and ports that one pipeline executes.
#[derive(Clone, Debug, PartialEq, Eq)]
pub struct RunningGraph {
    pub procs: Vec<ProcessorNode>,
    pub edges: Vec<Edge>,
}

/// The port buffers at most one unit: the slot accounts exactly for the
/// difference of the two counters.
pub open spec fn port_wf(e: Edge) -> bool {
    e.pushed == e.pulled + (if e.data is Some {
        1u64
    } else {
        0u64
    })
}

/// The execution counters of adjacent structures agree for the simple port
/// shapes: a one-output source has pushed what it emitted, a transform pushes
/// what it pulled, and a one-input sink holds what was pulled from its port.
/// A sink fed directly by a source has received exactly `0, 1, 2, ...`.
pub open spec fn counters_wf(procs: Seq<ProcessorNode>, edges: Seq<Edge>, n: int) -> bool
    recommends
        0 <= n < procs.len(),
{
    let nd = procs[n];
    match nd.kind {
        ProcKind::Source => {
            &&& (nd.outputs@.len() == 1 ==> {
                let e = edges[nd.outputs@[0] as int];
                &&& nd.emitted == e.pushed
                &&& (e.data is Some ==> e.data.unwrap() + 1 == e.pushed)
            })
            &&& (nd.outputs@.len() == 2 && nd.outputs@[0] != nd.outputs@[1] ==> nd.emitted
                == edges[nd.outputs@[0] as int].pushed + edges[nd.outputs@[1] as int].pushed)
        },
        ProcKind::Transform => {
            let ie = edges[nd.inputs@[0] as int];
            let oe = edges[nd.outputs@[0] as int];
            ie.pulled == oe.pushed
        },
        ProcKind::Sink => {
            &&& (nd.inputs@.len() == 1 ==> {
                let e = edges[nd.inputs@[0] as int];
                &&& nd.received@.len() == e.pulled
                &&& (procs[e.from as int].kind == ProcKind::Source && procs[e.from as int].outputs@
                    =~= seq![nd.inputs@[0]] ==> forall|i: int|
                    0 <= i < nd.received@.len() ==> nd.received@[i] == i)
            })
            &&& (nd.inputs@.len() == 2 && nd.inputs@[0] != nd.inputs@[1] ==> nd.received@.len()
                == edges[nd.inputs@[0] as int].pulled + edges[nd.inputs@[1] as int].pulled)
        },
    }
}

impl RunningGraph {
    pub open spec fn node_count(&self) -> int {
        self.procs@.len() as int
    }

    pub open spec fn edge_count(&self) -> int {
        self.edges@.len() as int
    }

    /// Edges point at real nodes, adjacency lists agree with edge endpoints,
    /// each kind has its legal port shape, every port holds at most one unit,
    /// and the transfer counters are consistent.
    pub open spec fn wf(&self) -> bool {
        &&& forall|e: int|
            0 <= e < self.edge_count() ==> (#[trigger] self.edges@[e]).from < self.procs@.len()
                && self.edges@[e].to < self.procs@.len() && self.edges@[e].from
                != self.edges@[e].to && port_wf(self.edges@[e]) && self.edges@[e].pushed
                <= self.procs@[self.edges@[e].from as int].calls && self.edges@[e].pulled
                <= self.procs@[self.edges@[e].to as int].calls
        &&& forall|n: int, j: int|
            0 <= n < self.node_count() && 0 <= j < self.procs@[n].outputs@.len() ==> (
            #[trigger] self.procs@[n].outputs@[j]) < self.edges@.len()
                && self.edges@[self.procs@[n].outputs@[j] as int].from == n
        &&& forall|n: int, j: int|
            0 <= n < self.node_count() && 0 <= j < self.procs@[n].inputs@.len() ==> (
            #[trigger] self.procs@[n].inputs@[j]) < self.edges@.len()
                && self.edges@[self.procs@[n].inputs@[j] as int].to == n
        &&& forall|n: int|
            0 <= n < self.node_count() ==> match (#[trigger] self.procs@[n]).kind {
                ProcKind::Source => self.procs@[n].inputs@.len() == 0
                    && self.procs@[n].outputs@.len() >= 1 && self.procs@[n].emitted
                    <= self.procs@[n].total,
                ProcKind::Transform => self.procs@[n].inputs@.len() == 1
                    && self.procs@[n].outputs@.len() == 1,
                ProcKind::Sink => self.procs@[n].outputs@.len() == 0,
            }
        &&& forall|n: int| 0 <= n < self.node_count() ==> counters_wf(self.procs@, self.edges@, n)
    }

    /// An empty graph, to be populated through `add_node` and `connect`.
    pub fn create() -> (g: RunningGraph)
        ensures
            g.node_count() == 0,
            g.edge_count() == 0,
            g.wf(),
    {
        RunningGraph { procs: Vec::new(), edges: Vec::new() }
    }

    /// Append a node with no edges yet.  `total` matters for sources,
    /// `fail_at` injects a failure on that call ordinal, and `async_cadence`
    /// makes every such call offloadable.  The graph is well-formed again
    /// once the new node's ports are connected.
    pub fn add_node(&mut self, kind: ProcKind, total: u64, fail_at: u64, async_cadence: u64) -> (n:
        usize)
        ensures
            final(self).node_count() == old(self).node_count() + 1,
            final(self).edges@ == old(self).edges@,
            n as int == old(self).node_count(),
            final(self).procs@ == old(self).procs@.push(
                ProcessorNode {
                    kind,
                    inputs: final(self).procs@[n as int].inputs,
                    outputs: final(self).procs@[n as int].outputs,
                    total,
                    emitted: 0,
                    calls: 0,
                    received: final(self).procs@[n as int].received,
                    fail_at,
                    async_cadence,
                },
            ),
            final(self).procs@[n as int].kind == kind,
            final(self).procs@[n as int].total == total,
            final(self).procs@[n as int].emitted == 0,
            final(self).procs@[n as int].calls == 0,
            final(self).procs@[n as int].fail_at == fail_at,
            final(self).procs@[n as int].async_cadence == async_cadence,
            final(self).procs@[n as int].inputs@.len() == 0,
            final(self).procs@[n as int].outputs@.len() == 0,
            final(self).procs@[n as int].received@.len() == 0,
    {
        let n = self.procs.len();
        self.procs.push(
            ProcessorNode {
                kind,
                inputs: Vec::new(),
                outputs: Vec::new(),
                total,
                emitted: 0,
                calls: 0,
                received: Vec::new(),
                fail_at,
                async_cadence,
            },
        );
        n
    }

    /// Connect an output port of `from` to an input port of `to` with a new
    /// empty edge.
    pub fn connect(&mut self, from: usize, to: usize) -> (e: usize)
        requires
            from < old(self).node_count(),
            to < old(self).node_count(),
            from != to,
        ensures
            final(self).node_count() == old(self).node_count(),
            final(self).edge_count() == old(self).edge_count() + 1,
            e as int == old(self).edge_count(),
            final(self).edges@ == old(self).edges@.push(
                Edge { from, to, data: None, finished: false, pushed: 0, pulled: 0 },
            ),
            forall|m: int|
                0 <= m < old(self).node_count() && m != from && m != to ==> final(self).procs@[m]
                    == old(self).procs@[m],
            final(self).procs@[from as int].outputs@ == old(self).procs@[from as int].outputs@.push(
                e,
            ),
            from != to ==> final(self).procs@[from as int].inputs@ == old(
                self,
            ).procs@[from as int].inputs@,
            final(self).procs@[to as int].inputs@ == old(self).procs@[to as int].inputs@.push(e),
            from != to ==> final(self).procs@[to as int].outputs@ == old(
                self,
            ).procs@[to as int].outputs@,
            unchanged_but_ports(old(self).procs@[from as int], final(self).procs@[from as int]),
            unchanged_but_ports(old(self).procs@[to as int], final(self).procs@[to as int]),
    {
        let e = self.edges.len();
        self.edges.push(Edge { from, to, data: None, finished: false, pushed: 0, pulled: 0 });
        let fromn = &mut self.procs[from];
        fromn.outputs.push(e);
        let ton = &mut self.procs[to];
        ton.inputs.push(e);
        e
    }
}

/// The two nodes kept everything but their adjacency lists.
pub open spec fn unchanged_but_ports(pre: ProcessorNode, post: ProcessorNode) -> bool {
    &&& post.kind == pre.kind
    &&& post.total == pre.total
    &&& post.emitted == pre.emitted
    &&& post.calls == pre.calls
    &&& post.received@ == pre.received@
    &&& post.fail_at == pre.fail_at
    &&& post.async_cadence == pre.async_cadence
}

/// An output port ready to take one more unit.
pub open spec fn edge_free(e: Edge) -> bool {
    !e.finished && e.data is None
}

/// The position of the first listed port that can take a unit, searching
/// from `j`; the list length when there is none.
pub open spec fn first_free_output_from(outs: Seq<usize>, edges: Seq<Edge>, j: int) -> int
    decreases outs.len() - j,
{
    if j < 0 || j >= outs.len() {
        outs.len() as int
    } else if edge_free(edges[outs[j] as int]) {
        j
    } else {
        first_free_output_from(outs, edges, j + 1)
    }
}

/// The position of the first listed port holding a unit, searching from
/// `j`; the list length when there is none.
pub open spec fn first_input_data_from(ins: Seq<usize>, edges: Seq<Edge>, j: int) -> int
    decreases ins.len() - j,
{
    if j < 0 || j >= ins.len() {
        ins.len() as int
    } else if edges[ins[j] as int].data is Some {
        j
    } else {
        first_input_data_from(ins, edges, j + 1)
    }
}

pub open spec fn has_free_output(outs: Seq<usize>, edges: Seq<Edge>) -> bool {
    first_free_output_from(outs, edges, 0) < outs.len()
}

pub open spec fn has_input_data(ins: Seq<usize>, edges: Seq<Edge>) -> bool {
    first_input_data_from(ins, edges, 0) < ins.len()
}

pub open spec fn all_outputs_finished(outs: Seq<usize>, edges: Seq<Edge>) -> bool {
    forall|j: int| 0 <= j < outs.len() ==> edges[#[trigger] outs[j] as int].finished
}

pub open spec fn all_inputs_finished(ins: Seq<usize>, edges: Seq<Edge>) -> bool {
    forall|j: int| 0 <= j < ins.len() ==> edges[#[trigger] ins[j] as int].finished
}

/// Whether the node's next unit of work must be offloaded.
pub open spec fn next_call_async(nd: ProcessorNode) -> bool {
    nd.async_cadence > 0 && ((nd.calls + 1) as int % (nd.async_cadence as int)) == 0
}

proof fn lemma_ffo_skip(outs: Seq<usize>, edges: Seq<Edge>, j: int)
    requires
        0 <= j <= outs.len(),
        forall|k: int| 0 <= k < j ==> !edge_free(edges[#[trigger] outs[k] as int]),
    ensures
        first_free_output_from(outs, edges, 0) == first_free_output_from(outs, edges, j),
    decreases j,
{
    if j > 0 {
        lemma_ffo_skip(outs, edges, j - 1);
        assert(first_free_output_from(outs, edges, j - 1) == first_free_output_from(
            outs,
            edges,
            j,
        ));
    }
}

proof fn lemma_fid_skip(ins: Seq<usize>, edges: Seq<Edge>, j: int)
    requires
        0 <= j <= ins.len(),
        forall|k: int| 0 <= k < j ==> edges[#[trigger] ins[k] as int].data is None,
    ensures
        first_input_data_from(ins, edges, 0) == first_input_data_from(ins, edges, j),
    decreases j,
{
    if j > 0 {
        lemma_fid_skip(ins, edges, j - 1);
    }
}

impl RunningGraph {
    /// The readiness classification of node `n`, per the event contract:
    /// it only inspects port flags and the node's own counters.
    pub open spec fn event_spec(&self, n: int) -> Event
        recommends
            0 <= n < self.node_count(),
            self.wf(),
    {
        let nd = self.procs@[n];
        match nd.kind {
            ProcKind::Source => if nd.emitted < nd.total {
                if has_free_output(nd.outputs@, self.edges@) {
                    if next_call_async(nd) {
                        Event::Async
                    } else {
                        Event::Sync
                    }
                } else {
                    Event::NeedConsume
                }
            } else {
                if all_outputs_finished(nd.outputs@, self.edges@) {
                    Event::Finished
                } else {
                    Event::Sync
                }
            },
            ProcKind::Transform => {
                let ie = self.edges@[nd.inputs@[0] as int];
                let oe = self.edges@[nd.outputs@[0] as int];
                if oe.finished {
                    Event::Finished
                } else if oe.data is Some {
                    Event::NeedConsume
                } else if ie.data is Some {
                    if next_call_async(nd) {
                        Event::Async
                    } else {
                        Event::Sync
                    }
                } else if ie.finished {
                    Event::Sync
                } else {
                    Event::NeedData
                }
            },
            ProcKind::Sink => if has_input_data(nd.inputs@, self.edges@) {
                if next_call_async(nd) {
                    Event::Async
                } else {
                    Event::Sync
                }
            } else if all_inputs_finished(nd.inputs@, self.edges@) {
                Event::Finished
            } else {
                Event::NeedData
            },
        }
    }

    fn first_free_output(&self, n: usize) -> (r: usize)
        requires
            self.wf(),
            n < self.node_count(),
        ensures
            r as int == first_free_output_from(self.procs@[n as int].outputs@, self.edges@, 0),
            r <= self.procs@[n as int].outputs@.len(),
    {
        let nd = &self.procs[n];
        let mut j: usize = 0;
        while j < nd.outputs.len()
            invariant
                self.wf(),
                n < self.node_count(),
                nd == &self.procs[n as int],
                j <= nd.outputs@.len(),
                forall|k: int|
                    0 <= k < j ==> !edge_free(
                        self.edges@[#[trigger] self.procs@[n as int].outputs@[k] as int],
                    ),
            decreases nd.outputs@.len() - j,
        {
            let e = nd.outputs[j];
            let ed = &self.edges[e];
            if !ed.finished && ed.data.is_none() {
                proof {
                    lemma_ffo_skip(self.procs@[n as int].outputs@, self.edges@, j as int);
                }
                return j;
            }
            j = j + 1;
        }
        proof {
            lemma_ffo_skip(self.procs@[n as int].outputs@, self.edges@, j as int);
        }
        j
    }

    fn first_input_with_data(&self, n: usize) -> (r: usize)
        requires
            self.wf(),
            n < self.node_count(),
        ensures
            r as int == first_input_data_from(self.procs@[n as int].inputs@, self.edges@, 0),
            r <= self.procs@[n as int].inputs@.len(),
    {
        let nd = &self.procs[n];
        let mut j: usize = 0;
        while j < nd.inputs.len()
            invariant
                self.wf(),
                n < self.node_count(),
                nd == &self.procs[n as int],
                j <= nd.inputs@.len(),
                forall|k: int|
                    0 <= k < j ==> self.edges@[#[trigger] self.procs@[n as int].inputs@[k] as int].data is None,
            decreases nd.inputs@.len() - j,
        {
            let e = nd.inputs[j];
            if self.edges[e].data.is_some() {
                proof {
                    lemma_fid_skip(self.procs@[n as int].inputs@, self.edges@, j as int);
                }
                return j;
            }
            j = j + 1;
        }
        proof {
            lemma_fid_skip(self.procs@[n as int].inputs@, self.edges@, j as int);
        }
        j
    }

    fn outputs_all_finished(&self, n: usize) -> (r: bool)
        requires
            self.wf(),
            n < self.node_count(),
        ensures
            r == all_outputs_finished(self.procs@[n as int].outputs@, self.edges@),
    {
        let nd = &self.procs[n];
        let mut j: usize = 0;
        while j < nd.outputs.len()
            invariant
                self.wf(),
                n < self.node_count(),
                nd == &self.procs[n as int],
                j <= nd.outputs@.len(),
                forall|k: int|
                    0 <= k < j ==> self.edges@[#[trigger] self.procs@[n as int].outputs@[k] as int].finished,
            decreases nd.outputs@.len() - j,
        {
            let e = nd.outputs[j];
            if !self.edges[e].finished {
                return false;
            }
            j = j + 1;
        }
        true
    }

    fn inputs_all_finished(&self, n: usize) -> (r: bool)
        requires
            self.wf(),
            n < self.node_count(),
        ensures
            r == all_inputs_finished(self.procs@[n as int].inputs@, self.edges@),
    {
        let nd = &self.procs[n];
        let mut j: usize = 0;
        while j < nd.inputs.len()
            invariant
                self.wf(),
                n < self.node_count(),
                nd == &self.procs[n as int],
                j <= nd.inputs@.len(),
                forall|k: int|
                    0 <= k < j ==> self.edges@[#[trigger] self.procs@[n as int].inputs@[k] as int].finished,
            decreases nd.inputs@.len() - j,
        {
            let e = nd.inputs[j];
            if !self.edges[e].finished {
                return false;
            }
            j = j + 1;
        }
        true
    }

    fn next_is_async(&self, n: usize) -> (r: bool)
        requires
            n < self.node_count(),
        ensures
            r == next_call_async(self.procs@[n as int]),
    {
        let nd = &self.procs[n];
        if nd.async_cadence == 0 {
            return false;
        }
        let rem = nd.calls % nd.async_cadence;
        proof {
            let c = nd.calls as int;
            let k = nd.async_cadence as int;
            vstd::arithmetic::div_mod::lemma_add_mod_noop(c, 1, k);
            if k == 1 {
                vstd::arithmetic::div_mod::lemma_mod_division_less_than_divisor(c + 1, 1);
                vstd::arithmetic::div_mod::lemma_mod_division_less_than_divisor(c, 1);
                vstd::arithmetic::div_mod::lemma_mod_division_less_than_divisor(
                    (rem + 1) as int,
                    1,
                );
            } else {
                assert(1int % k == 1) by {
                    vstd::arithmetic::div_mod::lemma_small_mod(1nat, k as nat);
                }
                assert((c + 1) % k == ((c % k) + 1) % k);
            }
        }
        (rem + 1) % nd.async_cadence == 0
    }

    /// Every port that was finished stays finished, and a port is finished
    /// only for a legitimate reason: its producer ran out of data.
    pub open spec fn clean_finished(&self) -> bool {
        forall|e: int|
            0 <= e < self.edge_count() && (#[trigger] self.edges@[e]).finished
                ==> finished_legit(self.procs@, self.edges@, e)
    }

    /// Ask node `n` what it wants to do next.  Cheap and side-effect-free: it
    /// only reads port flags and the node's own counters.
    pub fn event(&self, n: usize) -> (ev: Event)
        requires
            self.wf(),
            n < self.node_count(),
        ensures
            ev == self.event_spec(n as int),
    {
        let nd = &self.procs[n];
        match nd.kind {
            ProcKind::Source => {
                if nd.emitted < nd.total {
                    let j = self.first_free_output(n);
                    if j < self.procs[n].outputs.len() {
                        if self.next_is_async(n) {
                            Event::Async
                        } else {
                            Event::Sync
                        }
                    } else {
                        Event::NeedConsume
                    }
                } else {
                    if self.outputs_all_finished(n) {
                        Event::Finished
                    } else {
                        Event::Sync
                    }
                }
            },
            ProcKind::Transform => {
                let ie = self.procs[n].inputs[0];
                let oe = self.procs[n].outputs[0];
                if self.edges[oe].finished {
                    Event::Finished
                } else if self.edges[oe].data.is_some() {
                    Event::NeedConsume
                } else if self.edges[ie].data.is_some() {
                    if self.next_is_async(n) {
                        Event::Async
                    } else {
                        Event::Sync
                    }
                } else if self.edges[ie].finished {
                    Event::Sync
                } else {
                    Event::NeedData
                }
            },
            ProcKind::Sink => {
                let j = self.first_input_with_data(n);
                if j < self.procs[n].inputs.len() {
                    if self.next_is_async(n) {
                        Event::Async
                    } else {
                        Event::Sync
                    }
                } else if self.inputs_all_finished(n) {
                    Event::Finished
                } else {
                    Event::NeedData
                }
            },
        }
    }

    /// Run one unit of synchronous work on node `n`.  Must only be called
    /// after `event` reported `Sync`.
    pub fn process(&mut self, n: usize) -> (r: Result<(), ErrorCode>)
        requires
            old(self).wf(),
            n < old(self).node_count(),
            old(self).event_spec(n as int) == Event::Sync,
            old(self).procs@[n as int].calls < u64::MAX,
        ensures
            final(self).wf(),
            process_outcome(*old(self), *final(self), n as int, r),
    {
        self.work_once(n)
    }

    /// Run one unit of offloadable work on node `n`.  Must only be called
    /// after `event` reported `Async`; in a deployment this is the body that
    /// the external runtime awaits, and its result comes back through the
    /// completion queue.
    pub fn async_process(&mut self, n: usize) -> (r: Result<(), ErrorCode>)
        requires
            old(self).wf(),
            n < old(self).node_count(),
            old(self).event_spec(n as int) == Event::Async,
            old(self).procs@[n as int].calls < u64::MAX,
        ensures
            final(self).wf(),
            process_outcome(*old(self), *final(self), n as int, r),
    {
        self.work_once(n)
    }

    fn work_once(&mut self, n: usize) -> (r: Result<(), ErrorCode>)
        requires
            old(self).wf(),
            n < old(self).node_count(),
            old(self).event_spec(n as int) == Event::Sync || old(self).event_spec(n as int)
                == Event::Async,
            old(self).procs@[n as int].calls < u64::MAX,
        ensures
            final(self).wf(),
            process_outcome(*old(self), *final(self), n as int, r),
    {
        let nd_calls = self.procs[n].calls;
        let nd_fail = self.procs[n].fail_at;
        self.procs[n].calls = nd_calls + 1;
        proof {
            lemma_wf_calls_bump(*old(self), *self, n as int);
        }
        if nd_fail > 0 && nd_calls + 1 == nd_fail {
            proof {
                assert forall|e: int|
                    0 <= e < self.edges@.len() implies self.edges@[e] == old(self).edges@[e] by {}
                assert(self.edges@ =~= old(self).edges@);
            }
            return Err(
                ErrorCode::new(ErrorKind::ProcessorError, "injected processor failure".to_owned()),
            );
        }
        let ghost pre = *old(self);
        let ghost n_ = n as int;
        let kind = self.procs[n].kind;
        match kind {
            ProcKind::Source => {
                if self.procs[n].emitted < self.procs[n].total {
                    let j = self.first_free_output_post(n);
                    let e = self.procs[n].outputs[j];
                    let ghost e_ = e as int;
                    let v = self.procs[n].emitted;
                    proof {
                        assert(pre.edges@[e_].from == n);
                        assert(pre.edges@[e_].pushed <= pre.procs@[n_].calls);
                    }
                    let mut ed = self.edges[e];
                    ed.data = Some(v);
                    ed.pushed = ed.pushed + 1;
                    self.edges[e] = ed;
                    self.procs[n].emitted = v + 1;
                    proof {
                        assert(self.edges@ =~= pre.edges@.update(
                            e_,
                            Edge {
                                data: Some(v),
                                pushed: (pre.edges@[e_].pushed + 1) as u64,
                                ..pre.edges@[e_]
                            },
                        ));
                        lemma_source_emit_ok(pre, *self, n_, e_, j as int);
                    }
                } else {
                    self.finish_outputs(n);
                    proof {
                        lemma_source_finish_ok(pre, *self, n_);
                    }
                }
            },
            ProcKind::Transform => {
                let ie = self.procs[n].inputs[0];
                let oe = self.procs[n].outputs[0];
                let ghost ie_ = ie as int;
                let ghost oe_ = oe as int;
                proof {
                    assert(pre.edges@[ie_].to == n);
                    assert(pre.edges@[oe_].from == n);
                    assert(ie_ != oe_);
                }
                match self.edges[ie].data {
                    Some(v) => {
                        let mut ied = self.edges[ie];
                        ied.data = None;
                        ied.pulled = ied.pulled + 1;
                        self.edges[ie] = ied;
                        let mut oed = self.edges[oe];
                        oed.data = Some(v);
                        oed.pushed = oed.pushed + 1;
                        self.edges[oe] = oed;
                        proof {
                            assert(self.edges@ =~= pre.edges@.update(
                                ie_,
                                Edge {
                                    data: None,
                                    pulled: (pre.edges@[ie_].pulled + 1) as u64,
                                    ..pre.edges@[ie_]
                                },
                            ).update(
                                oe_,
                                Edge {
                                    data: Some(v),
                                    pushed: (pre.edges@[oe_].pushed + 1) as u64,
                                    ..pre.edges@[oe_]
                                },
                            ));
                            lemma_transform_move_ok(pre, *self, n_, ie_, oe_);
                        }
                    },
                    None => {
                        let mut oed = self.edges[oe];
                        oed.finished = true;
                        self.edges[oe] = oed;
                        proof {
                            assert(self.edges@ =~= pre.edges@.update(
                                oe_,
                                Edge { finished: true, ..pre.edges@[oe_] },
                            ));
                            lemma_transform_finish_ok(pre, *self, n_, ie_, oe_);
                        }
                    },
                }
            },
            ProcKind::Sink => {
                let j = self.first_input_data_post(n);
                let e = self.procs[n].inputs[j];
                let ghost e_ = e as int;
                proof {
                    assert(pre.edges@[e_].to == n);
                    assert(pre.edges@[e_].pulled <= pre.procs@[n_].calls);
                }
                let mut ed = self.edges[e];
                let v = match ed.data {
                    Some(v) => v,
                    None => {
                        proof {
                            assert(false);
                        }
                        0
                    },
                };
                ed.data = None;
                ed.pulled = ed.pulled + 1;
                self.edges[e] = ed;
                self.procs[n].received.push(v);
                proof {
                    assert(self.edges@ =~= pre.edges@.update(
                        e_,
                        Edge {
                            data: None,
                            pulled: (pre.edges@[e_].pulled + 1) as u64,
                            ..pre.edges@[e_]
                        },
                    ));
                    lemma_sink_pull_ok(pre, *self, n_, e_, j as int);
                }
            },
        }
        Ok(())
    }

    /// `first_free_output`, usable after the call counter was advanced: the
    /// search only reads ports, which the counter does not affect.
    fn first_free_output_post(&self, n: usize) -> (r: usize)
        requires
            n < self.node_count(),
            forall|j: int|
                0 <= j < self.procs@[n as int].outputs@.len() ==> (#[trigger] self.procs@[n as int].outputs@[j])
                    < self.edges@.len(),
            first_free_output_from(self.procs@[n as int].outputs@, self.edges@, 0)
                < self.procs@[n as int].outputs@.len(),
        ensures
            r as int == first_free_output_from(self.procs@[n as int].outputs@, self.edges@, 0),
            r < self.procs@[n as int].outputs@.len(),
            edge_free(self.edges@[self.procs@[n as int].outputs@[r as int] as int]),
    {
        let nd = &self.procs[n];
        let mut j: usize = 0;
        while j < nd.outputs.len()
            invariant
                n < self.node_count(),
                nd == &self.procs[n as int],
                j <= nd.outputs@.len(),
                forall|j2: int|
                    0 <= j2 < self.procs@[n as int].outputs@.len() ==> (
                    #[trigger] self.procs@[n as int].outputs@[j2]) < self.edges@.len(),
                forall|k: int|
                    0 <= k < j ==> !edge_free(
                        self.edges@[#[trigger] self.procs@[n as int].outputs@[k] as int],
                    ),
                first_free_output_from(self.procs@[n as int].outputs@, self.edges@, 0)
                    < self.procs@[n as int].outputs@.len(),
            decreases nd.outputs@.len() - j,
        {
            let e = nd.outputs[j];
            let ed = &self.edges[e];
            if !ed.finished && ed.data.is_none() {
                proof {
                    lemma_ffo_skip(self.procs@[n as int].outputs@, self.edges@, j as int);
                }
                return j;
            }
            j = j + 1;
        }
        proof {
            lemma_ffo_skip(self.procs@[n as int].outputs@, self.edges@, j as int);
        }
        j
    }

    /// `first_input_with_data`, usable after the call counter was advanced.
    fn first_input_data_post(&self, n: usize) -> (r: usize)
        requires
            n < self.node_count(),
            forall|j: int|
                0 <= j < self.procs@[n as int].inputs@.len() ==> (#[trigger] self.procs@[n as int].inputs@[j])
                    < self.edges@.len(),
            first_input_data_from(self.procs@[n as int].inputs@, self.edges@, 0)
                < self.procs@[n as int].inputs@.len(),
        ensures
            r as int == first_input_data_from(self.procs@[n as int].inputs@, self.edges@, 0),
            r < self.procs@[n as int].inputs@.len(),
            self.edges@[self.procs@[n as int].inputs@[r as int] as int].data is Some,
    {
        let nd = &self.procs[n];
        let mut j: usize = 0;
        while j < nd.inputs.len()
            invariant
                n < self.node_count(),
                nd == &self.procs[n as int],
                j <= nd.inputs@.len(),
                forall|j2: int|
                    0 <= j2 < self.procs@[n as int].inputs@.len() ==> (
                    #[trigger] self.procs@[n as int].inputs@[j2]) < self.edges@.len(),
                forall|k: int|
                    0 <= k < j ==> self.edges@[#[trigger] self.procs@[n as int].inputs@[k] as int].data is None,
                first_input_data_from(self.procs@[n as int].inputs@, self.edges@, 0)
                    < self.procs@[n as int].inputs@.len(),
            decreases nd.inputs@.len() - j,
        {
            let e = nd.inputs[j];
            if self.edges[e].data.is_some() {
                proof {
                    lemma_fid_skip(self.procs@[n as int].inputs@, self.edges@, j as int);
                }
                return j;
            }
            j = j + 1;
        }
        proof {
            lemma_fid_skip(self.procs@[n as int].inputs@, self.edges@, j as int);
        }
        j
    }

    fn finish_outputs(&mut self, n: usize)
        requires
            n < old(self).node_count(),
            forall|j: int|
                0 <= j < old(self).procs@[n as int].outputs@.len() ==> (#[trigger] old(
                    self,
                ).procs@[n as int].outputs@[j]) < old(self).edges@.len(),
        ensures
            final(self).procs@ == old(self).procs@,
            final(self).edges@.len() == old(self).edges@.len(),
            forall|e: int|
                0 <= e < old(self).edges@.len() ==> final(self).edges@[e] == (if old(
                    self,
                ).procs@[n as int].outputs@.contains(e as usize) {
                    Edge { finished: true, ..old(self).edges@[e] }
                } else {
                    old(self).edges@[e]
                }),
    {
        let count = self.procs[n].outputs.len();
        let mut j: usize = 0;
        while j < count
            invariant
                n < self.node_count(),
                self.procs@ == old(self).procs@,
                count == self.procs@[n as int].outputs@.len(),
                j <= count,
                self.edges@.len() == old(self).edges@.len(),
                forall|j2: int|
                    0 <= j2 < self.procs@[n as int].outputs@.len() ==> (
                    #[trigger] self.procs@[n as int].outputs@[j2]) < self.edges@.len(),
                forall|e: int|
                    0 <= e < old(self).edges@.len() ==> final_edge_partial(
                        old(self).procs@[n as int].outputs@,
                        j as int,
                        old(self).edges@,
                        self.edges@,
                        e,
                    ),
            decreases count - j,
        {
            let e = self.procs[n].outputs[j];
            let ghost edges_pre = self.edges@;
            let mut ed = self.edges[e];
            ed.finished = true;
            self.edges[e] = ed;
            proof {
                let outs = old(self).procs@[n as int].outputs@;
                assert forall|e2: int| 0 <= e2 < old(self).edges@.len() implies #[trigger] final_edge_partial(
                    outs,
                    j + 1,
                    old(self).edges@,
                    self.edges@,
                    e2,
                ) by {
                    assert(final_edge_partial(outs, j as int, old(self).edges@, edges_pre, e2));
                    if e2 == e as int {
                        assert(outs[j as int] == e2 as usize);
                        assert(exists|k: int| 0 <= k < j + 1 && outs[k] == e2 as usize);
                        assert(self.edges@[e2] == (Edge { finished: true, ..edges_pre[e2] }));
                        if exists|k: int| 0 <= k < j && outs[k] == e2 as usize {
                            assert(edges_pre[e2] == (Edge {
                                finished: true,
                                ..old(self).edges@[e2]
                            }));
                        } else {
                            assert(edges_pre[e2] == old(self).edges@[e2]);
                        }
                    } else {
                        assert(self.edges@[e2] == edges_pre[e2]);
                        if exists|k: int| 0 <= k < j + 1 && outs[k] == e2 as usize {
                            let k = choose|k: int| 0 <= k < j + 1 && outs[k] == e2 as usize;
                            assert(outs[j as int] == e as usize);
                            assert(old(self).edges@.len() <= usize::MAX) by {
                                assert(old(self).edges.len() == old(self).edges@.len());
                            }
                            assert(e2 == outs[k] as int);
                            assert(k != j);
                            assert(exists|k2: int| 0 <= k2 < j && outs[k2] == e2 as usize);
                        }
                    }
                }
            }
            j = j + 1;
        }
        proof {
            let outs = old(self).procs@[n as int].outputs@;
            assert forall|e2: int|
                0 <= e2 < old(self).edges@.len() implies self.edges@[e2] == (if outs.contains(
                e2 as usize,
            ) {
                Edge { finished: true, ..old(self).edges@[e2] }
            } else {
                old(self).edges@[e2]
            }) by {
                assert(final_edge_partial(outs, count as int, old(self).edges@, self.edges@, e2));
                if outs.contains(e2 as usize) {
                    let k = choose|k: int| 0 <= k < outs.len() && outs[k] == e2 as usize;
                    assert(exists|k2: int| 0 <= k2 < count && outs[k2] == e2 as usize);
                }
            }
        }
    }
}

/// Hypotheses shared by all work-step lemmas: only node `n` changed, and
/// only in its counters.
pub open spec fn step_frame(pre: RunningGraph, post: RunningGraph, n: int) -> bool {
    &&& pre.wf()
    &&& 0 <= n < pre.node_count()
    &&& post.procs@.len() == pre.procs@.len()
    &&& (forall|m: int| 0 <= m < pre.procs@.len() && m != n ==> post.procs@[m] == pre.procs@[m])
    &&& node_shape_eq(pre.procs@[n], post.procs@[n])
    &&& post.procs@[n].calls == pre.procs@[n].calls + 1
    &&& pre.procs@[n].calls < u64::MAX
}

/// A source emitted its next unit into free output port `e`.
proof fn lemma_source_emit_ok(pre: RunningGraph, post: RunningGraph, n: int, e: int, j: int)
    requires
        step_frame(pre, post, n),
        pre.procs@[n].kind == ProcKind::Source,
        pre.procs@[n].emitted < pre.procs@[n].total,
        0 <= j < pre.procs@[n].outputs@.len(),
        e == pre.procs@[n].outputs@[j] as int,
        edge_free(pre.edges@[e]),
        post.procs@[n].emitted == pre.procs@[n].emitted + 1,
        post.procs@[n].received@ == pre.procs@[n].received@,
        post.edges@ == pre.edges@.update(
            e,
            (Edge {
                data: Some(pre.procs@[n].emitted),
                pushed: (pre.edges@[e].pushed + 1) as u64,
                ..pre.edges@[e]
            }),
        ),
    ensures
        post.wf(),
        pre.clean_finished() ==> post.clean_finished(),
        forall|g: int|
            0 <= g < pre.edges@.len() && (#[trigger] pre.edges@[g]).finished
                ==> post.edges@[g].finished,
{
    assert(pre.edges@[e].from == n);
    assert(pre.edges@[e].pushed <= pre.procs@[n].calls);
    assert forall|m: int| 0 <= m < post.node_count() implies counters_wf(
        post.procs@,
        post.edges@,
        m,
    ) by {
        assert(counters_wf(pre.procs@, pre.edges@, m));
        let nd = pre.procs@[m];
        if m == n {
            if nd.outputs@.len() == 1 {
                assert(nd.outputs@[0] as int == e);
                assert(nd.emitted == pre.edges@[e].pushed);
            }
            if nd.outputs@.len() == 2 && nd.outputs@[0] != nd.outputs@[1] {
                assert(nd.outputs@[j] as int == e);
                if j == 0 {
                    assert(nd.outputs@[1] as int != e);
                } else {
                    assert(j == 1);
                    assert(nd.outputs@[0] as int != e);
                }
            }
        } else {
            match nd.kind {
                ProcKind::Source => {
                    if nd.outputs@.len() == 1 {
                        assert(pre.edges@[nd.outputs@[0] as int].from == m);
                        assert(nd.outputs@[0] as int != e);
                    }
                    if nd.outputs@.len() == 2 {
                        assert(pre.edges@[nd.outputs@[0] as int].from == m);
                        assert(pre.edges@[nd.outputs@[1] as int].from == m);
                        assert(nd.outputs@[0] as int != e && nd.outputs@[1] as int != e);
                    }
                },
                ProcKind::Transform => {
                    assert(pre.edges@[nd.outputs@[0] as int].from == m);
                    assert(nd.outputs@[0] as int != e);
                },
                ProcKind::Sink => {
                    if nd.inputs@.len() == 1 {
                        let ie = nd.inputs@[0] as int;
                        assert(post.edges@[ie].pulled == pre.edges@[ie].pulled);
                        assert(post.procs@[pre.edges@[ie].from as int].kind
                            == pre.procs@[pre.edges@[ie].from as int].kind);
                    }
                },
            }
        }
    }
    if pre.clean_finished() {
        assert forall|g: int|
            0 <= g < post.edge_count() && (#[trigger] post.edges@[g]).finished implies finished_legit(
            post.procs@,
            post.edges@,
            g,
        ) by {
            assert(pre.edges@[g].finished);
            assert(finished_legit(pre.procs@, pre.edges@, g));
            let from = pre.edges@[g].from as int;
            if from == n {
                assert(pre.procs@[from].kind == ProcKind::Source);
                assert(pre.procs@[from].emitted == pre.procs@[from].total);
                assert(false);
            } else {
                if pre.procs@[from].kind == ProcKind::Transform {
                    let fie = pre.procs@[from].inputs@[0] as int;
                    if fie == e {
                        assert(pre.edges@[e].finished);
                        assert(false);
                    }
                }
            }
        }
    }
}

/// A drained source marked all its output ports finished.
proof fn lemma_source_finish_ok(pre: RunningGraph, post: RunningGraph, n: int)
    requires
        step_frame(pre, post, n),
        pre.procs@[n].kind == ProcKind::Source,
        pre.procs@[n].emitted >= pre.procs@[n].total,
        post.procs@[n].emitted == pre.procs@[n].emitted,
        post.procs@[n].received@ == pre.procs@[n].received@,
        post.edges@.len() == pre.edges@.len(),
        forall|e: int|
            0 <= e < pre.edges@.len() ==> post.edges@[e] == (if pre.procs@[n].outputs@.contains(
                e as usize,
            ) {
                Edge { finished: true, ..pre.edges@[e] }
            } else {
                pre.edges@[e]
            }),
    ensures
        post.wf(),
        pre.clean_finished() ==> post.clean_finished(),
        forall|g: int|
            0 <= g < pre.edges@.len() && (#[trigger] pre.edges@[g]).finished
                ==> post.edges@[g].finished,
{
    assert forall|m: int| 0 <= m < post.node_count() implies counters_wf(
        post.procs@,
        post.edges@,
        m,
    ) by {
        assert(counters_wf(pre.procs@, pre.edges@, m));
        let nd = pre.procs@[m];
        if nd.kind == ProcKind::Sink && nd.inputs@.len() == 1 {
            let ie = nd.inputs@[0] as int;
            assert(post.edges@[ie].pulled == pre.edges@[ie].pulled);
            assert(post.procs@[pre.edges@[ie].from as int].kind
                == pre.procs@[pre.edges@[ie].from as int].kind);
        }
    }
    if pre.clean_finished() {
        assert forall|g: int|
            0 <= g < post.edge_count() && (#[trigger] post.edges@[g]).finished implies finished_legit(
            post.procs@,
            post.edges@,
            g,
        ) by {
            let from = pre.edges@[g].from as int;
            if pre.procs@[n].outputs@.contains(g as usize) {
                assert(from == n) by {
                    assert(pre.edges@.len() == pre.edges.len());
                    let k = choose|k: int|
                        0 <= k < pre.procs@[n].outputs@.len() && pre.procs@[n].outputs@[k]
                            == g as usize;
                    assert(pre.edges@[pre.procs@[n].outputs@[k] as int].from == n);
                    assert(g == pre.procs@[n].outputs@[k] as int);
                }
                assert(pre.procs@[n].emitted <= pre.procs@[n].total);
                assert(post.procs@[n].emitted == post.procs@[n].total);
            } else {
                assert(pre.edges@[g].finished);
                assert(finished_legit(pre.procs@, pre.edges@, g));
                if pre.procs@[from].kind == ProcKind::Transform {
                    let fie = pre.procs@[from].inputs@[0] as int;
                    assert(post.edges@[fie].data == pre.edges@[fie].data);
                }
            }
        }
    }
}

/// A transform moved the buffered unit from its input port to its output
/// port.
proof fn lemma_transform_move_ok(pre: RunningGraph, post: RunningGraph, n: int, ie: int, oe: int)
    requires
        step_frame(pre, post, n),
        pre.procs@[n].kind == ProcKind::Transform,
        ie == pre.procs@[n].inputs@[0] as int,
        oe == pre.procs@[n].outputs@[0] as int,
        pre.edges@[ie].data is Some,
        !pre.edges@[oe].finished,
        pre.edges@[oe].data is None,
        post.procs@[n].emitted == pre.procs@[n].emitted,
        post.procs@[n].received@ == pre.procs@[n].received@,
        post.edges@ == pre.edges@.update(
            ie,
            (Edge { data: None, pulled: (pre.edges@[ie].pulled + 1) as u64, ..pre.edges@[ie] }),
        ).update(
            oe,
            (Edge {
                data: Some(pre.edges@[ie].data.unwrap()),
                pushed: (pre.edges@[oe].pushed + 1) as u64,
                ..pre.edges@[oe]
            }),
        ),
    ensures
        post.wf(),
        pre.clean_finished() ==> post.clean_finished(),
        forall|g: int|
            0 <= g < pre.edges@.len() && (#[trigger] pre.edges@[g]).finished
                ==> post.edges@[g].finished,
{
    assert(pre.edges@[ie].to == n);
    assert(pre.edges@[oe].from == n);
    assert(ie != oe);
    assert(pre.edges@[ie].pulled <= pre.procs@[n].calls);
    assert(pre.edges@[oe].pushed <= pre.procs@[n].calls);
    assert forall|m: int| 0 <= m < post.node_count() implies counters_wf(
        post.procs@,
        post.edges@,
        m,
    ) by {
        assert(counters_wf(pre.procs@, pre.edges@, m));
        let nd = pre.procs@[m];
        if m != n {
            match nd.kind {
                ProcKind::Source => {
                    if nd.outputs@.len() == 1 {
                        assert(pre.edges@[nd.outputs@[0] as int].from == m);
                        assert(nd.outputs@[0] as int != oe);
                    }
                },
                ProcKind::Transform => {
                    assert(pre.edges@[nd.outputs@[0] as int].from == m);
                    assert(pre.edges@[nd.inputs@[0] as int].to == m);
                    assert(nd.outputs@[0] as int != oe);
                    assert(nd.inputs@[0] as int != ie);
                },
                ProcKind::Sink => {
                    if nd.inputs@.len() == 1 {
                        let sie = nd.inputs@[0] as int;
                        assert(pre.edges@[sie].to == m);
                        assert(sie != ie);
                        assert(post.edges@[sie].pulled == pre.edges@[sie].pulled);
                        assert(post.procs@[pre.edges@[sie].from as int].kind
                            == pre.procs@[pre.edges@[sie].from as int].kind);
                    }
                },
            }
        }
    }
    if pre.clean_finished() {
        assert forall|g: int|
            0 <= g < post.edge_count() && (#[trigger] post.edges@[g]).finished implies finished_legit(
            post.procs@,
            post.edges@,
            g,
        ) by {
            assert(pre.edges@[g].finished);
            assert(finished_legit(pre.procs@, pre.edges@, g));
            let from = pre.edges@[g].from as int;
            if pre.procs@[from].kind == ProcKind::Transform {
                let fie = pre.procs@[from].inputs@[0] as int;
                if fie == oe {
                    assert(pre.edges@[oe].finished);
                    assert(false);
                }
                if fie == ie {
                    assert(post.edges@[fie].finished == pre.edges@[fie].finished);
                    assert(post.edges@[fie].data is None);
                }
            }
        }
    }
}

/// A transform whose input ended propagated end-of-stream to its output.
proof fn lemma_transform_finish_ok(pre: RunningGraph, post: RunningGraph, n: int, ie: int, oe: int)
    requires
        step_frame(pre, post, n),
        pre.procs@[n].kind == ProcKind::Transform,
        ie == pre.procs@[n].inputs@[0] as int,
        oe == pre.procs@[n].outputs@[0] as int,
        pre.edges@[ie].data is None,
        pre.edges@[ie].finished,
        pre.edges@[oe].data is None,
        post.procs@[n].emitted == pre.procs@[n].emitted,
        post.procs@[n].received@ == pre.procs@[n].received@,
        post.edges@ == pre.edges@.update(oe, (Edge { finished: true, ..pre.edges@[oe] })),
    ensures
        post.wf(),
        pre.clean_finished() ==> post.clean_finished(),
        forall|g: int|
            0 <= g < pre.edges@.len() && (#[trigger] pre.edges@[g]).finished
                ==> post.edges@[g].finished,
{
    assert(pre.edges@[oe].from == n);
    assert(pre.edges@[ie].to == n);
    assert(ie != oe);
    assert forall|m: int| 0 <= m < post.node_count() implies counters_wf(
        post.procs@,
        post.edges@,
        m,
    ) by {
        assert(counters_wf(pre.procs@, pre.edges@, m));
        let nd = pre.procs@[m];
        if nd.kind == ProcKind::Sink && nd.inputs@.len() == 1 {
            let sie = nd.inputs@[0] as int;
            assert(post.edges@[sie].pulled == pre.edges@[sie].pulled);
            assert(post.procs@[pre.edges@[sie].from as int].kind
                == pre.procs@[pre.edges@[sie].from as int].kind);
        }
    }
    if pre.clean_finished() {
        assert forall|g: int|
            0 <= g < post.edge_count() && (#[trigger] post.edges@[g]).finished implies finished_legit(
            post.procs@,
            post.edges@,
            g,
        ) by {
            let from = pre.edges@[g].from as int;
            if g == oe {
                assert(post.edges@[ie].finished && post.edges@[ie].data is None);
            } else {
                assert(pre.edges@[g].finished);
                assert(finished_legit(pre.procs@, pre.edges@, g));
                if pre.procs@[from].kind == ProcKind::Transform {
                    let fie = pre.procs@[from].inputs@[0] as int;
                    if fie == oe {
                        assert(post.edges@[fie].finished && post.edges@[fie].data is None);
                    }
                }
            }
        }
    }
}

/// A sink consumed the buffered unit of input port `e`.
proof fn lemma_sink_pull_ok(pre: RunningGraph, post: RunningGraph, n: int, e: int, j: int)
    requires
        step_frame(pre, post, n),
        pre.procs@[n].kind == ProcKind::Sink,
        0 <= j < pre.procs@[n].inputs@.len(),
        e == pre.procs@[n].inputs@[j] as int,
        pre.edges@[e].data is Some,
        post.procs@[n].emitted == pre.procs@[n].emitted,
        post.procs@[n].received@ == pre.procs@[n].received@.push(pre.edges@[e].data.unwrap()),
        post.edges@ == pre.edges@.update(
            e,
            (Edge { data: None, pulled: (pre.edges@[e].pulled + 1) as u64, ..pre.edges@[e] }),
        ),
    ensures
        post.wf(),
        pre.clean_finished() ==> post.clean_finished(),
        forall|g: int|
            0 <= g < pre.edges@.len() && (#[trigger] pre.edges@[g]).finished
                ==> post.edges@[g].finished,
{
    assert(pre.edges@[e].to == n);
    assert(pre.edges@[e].pulled <= pre.procs@[n].calls);
    assert forall|m: int| 0 <= m < post.node_count() implies counters_wf(
        post.procs@,
        post.edges@,
        m,
    ) by {
        assert(counters_wf(pre.procs@, pre.edges@, m));
        let nd = pre.procs@[m];
        if m == n {
            if nd.inputs@.len() == 1 {
                assert(nd.inputs@[0] as int == e);
                assert(nd.received@.len() == pre.edges@[e].pulled);
                let from = pre.edges@[e].from as int;
                if pre.procs@[from].kind == ProcKind::Source && pre.procs@[from].outputs@ =~= seq![
                    nd.inputs@[0],
                ] {
                    assert(pre.edges@[e].data.unwrap() + 1 == pre.edges@[e].pushed) by {
                        assert(pre.edges@[e].from < pre.procs@.len());
                        assert(counters_wf(pre.procs@, pre.edges@, from));
                        assert(pre.procs@[from].outputs@[0] == nd.inputs@[0]);
                        assert(pre.procs@[from].outputs@[0] as int == e);
                    }
                    assert(port_wf(pre.edges@[e]));
                    assert(pre.edges@[e].data.unwrap() == pre.edges@[e].pulled);
                    assert forall|i: int|
                        0 <= i < post.procs@[m].received@.len() implies post.procs@[m].received@[i]
                        == i by {
                        if i < pre.procs@[m].received@.len() {
                            assert(pre.procs@[m].received@[i] == i);
                        }
                    }
                }
            }
        } else {
            match nd.kind {
                ProcKind::Source => {
                    if nd.outputs@.len() == 1 {
                        let soe = nd.outputs@[0] as int;
                        assert(post.edges@[soe].pushed == pre.edges@[soe].pushed);
                        if soe == e {
                            assert(post.edges@[soe].data is None);
                        }
                    }
                },
                ProcKind::Transform => {
                    let toe = nd.outputs@[0] as int;
                    assert(pre.edges@[toe].from == m);
                    assert(pre.edges@[nd.inputs@[0] as int].to == m);
                    assert(nd.inputs@[0] as int != e);
                    assert(post.edges@[toe].pushed == pre.edges@[toe].pushed);
                },
                ProcKind::Sink => {
                    if nd.inputs@.len() == 1 {
                        let sie = nd.inputs@[0] as int;
                        assert(pre.edges@[sie].to == m);
                        assert(sie != e);
                        assert(post.procs@[pre.edges@[sie].from as int].kind
                            == pre.procs@[pre.edges@[sie].from as int].kind);
                    }
                },
            }
        }
    }
    if pre.clean_finished() {
        assert forall|g: int|
            0 <= g < post.edge_count() && (#[trigger] post.edges@[g]).finished implies finished_legit(
            post.procs@,
            post.edges@,
            g,
        ) by {
            assert(pre.edges@[g].finished);
            assert(finished_legit(pre.procs@, pre.edges@, g));
            let from = pre.edges@[g].from as int;
            if pre.procs@[from].kind == ProcKind::Transform {
                let fie = pre.procs@[from].inputs@[0] as int;
                if fie == e {
                    assert(post.edges@[fie].data is None);
                }
            }
        }
    }
}

/// A node advanced only its call counter: the graph stays well-formed.
proof fn lemma_wf_calls_bump(pre: RunningGraph, post: RunningGraph, n: int)
    requires
        pre.wf(),
        0 <= n < pre.node_count(),
        post.procs@.len() == pre.procs@.len(),
        post.edges@ == pre.edges@,
        forall|m: int| 0 <= m < pre.procs@.len() && m != n ==> post.procs@[m] == pre.procs@[m],
        node_shape_eq(pre.procs@[n], post.procs@[n]),
        post.procs@[n].emitted == pre.procs@[n].emitted,
        post.procs@[n].received@ == pre.procs@[n].received@,
        post.procs@[n].calls >= pre.procs@[n].calls,
    ensures
        post.wf(),
{
    assert forall|m: int| 0 <= m < post.node_count() implies counters_wf(
        post.procs@,
        post.edges@,
        m,
    ) by {
        assert(counters_wf(pre.procs@, pre.edges@, m));
        let nd = pre.procs@[m];
        let ndp = post.procs@[m];
        if m == n {
            assert(ndp.kind == nd.kind && ndp.inputs@ == nd.inputs@ && ndp.outputs@
                == nd.outputs@);
        }
        if ndp.kind == ProcKind::Sink && ndp.inputs@.len() == 1 {
            let e = post.edges@[ndp.inputs@[0] as int];
            assert(pre.procs@[e.from as int].kind == post.procs@[e.from as int].kind);
        }
    }
}

/// Loop helper for `finish_outputs`: after the first `j` outputs were
/// finished, edge `e` is its old self, with `finished` set when some already
/// visited output names it.
pub open spec fn final_edge_partial(
    outs: Seq<usize>,
    j: int,
    pre: Seq<Edge>,
    cur: Seq<Edge>,
    e: int,
) -> bool {
    if exists|k: int| 0 <= k < j && outs[k] == e as usize {
        cur[e] == Edge { finished: true, ..pre[e] }
    } else {
        cur[e] == pre[e]
    }
}

/// Everything `process`/`async_process` promises: the call counter advanced;
/// on failure nothing else moved; on success exactly one unit of work
/// happened, as `process_result` describes.
pub open spec fn process_outcome(
    pre: RunningGraph,
    post: RunningGraph,
    n: int,
    r: Result<(), ErrorCode>,
) -> bool {
    let nd = pre.procs@[n];
    &&& post.procs@.len() == pre.procs@.len()
    &&& post.edges@.len() == pre.edges@.len()
    &&& (forall|m: int| 0 <= m < pre.procs@.len() && m != n ==> post.procs@[m] == pre.procs@[m])
    &&& node_shape_eq(nd, post.procs@[n])
    &&& post.procs@[n].calls == nd.calls + 1
    &&& (forall|e: int|
        0 <= e < pre.edges@.len() && (#[trigger] pre.edges@[e]).finished
            ==> post.edges@[e].finished)
    &&& (pre.clean_finished() ==> post.clean_finished())
    &&& match r {
        Ok(_) => (nd.fail_at == 0 || nd.calls + 1 != nd.fail_at) && process_result(pre, post, n),
        Err(e) => {
            &&& e@.kind == ErrorKind::ProcessorError
            &&& nd.fail_at > 0
            &&& nd.calls + 1 == nd.fail_at
            &&& post.edges@ == pre.edges@
            &&& post.procs@[n].emitted == nd.emitted
            &&& post.procs@[n].received@ == nd.received@
        },
    }
}

/// The node kept its identity: kind, adjacency and configuration.
pub open spec fn node_shape_eq(pre: ProcessorNode, post: ProcessorNode) -> bool {
    &&& post.kind == pre.kind
    &&& post.inputs@ == pre.inputs@
    &&& post.outputs@ == pre.outputs@
    &&& post.total == pre.total
    &&& post.fail_at == pre.fail_at
    &&& post.async_cadence == pre.async_cadence
}

/// The one unit of work a successful call performs, by kind: a source emits
/// its next value into its first free output, or finishes its outputs once
/// drained; a transform moves the buffered unit across, or propagates
/// end-of-stream; a sink consumes the first buffered input unit.
pub open spec fn process_result(pre: RunningGraph, post: RunningGraph, n: int) -> bool {
    let nd = pre.procs@[n];
    let ndp = post.procs@[n];
    match nd.kind {
        ProcKind::Source => if nd.emitted < nd.total {
            let j = first_free_output_from(nd.outputs@, pre.edges@, 0);
            &&& j < nd.outputs@.len()
            &&& {
                let e = nd.outputs@[j] as int;
                &&& ndp.emitted == nd.emitted + 1
                &&& ndp.received@ == nd.received@
                &&& post.edges@ == pre.edges@.update(
                    e,
                    Edge {
                        data: Some(nd.emitted),
                        pushed: (pre.edges@[e].pushed + 1) as u64,
                        ..pre.edges@[e]
                    },
                )
            }
        } else {
            &&& ndp.emitted == nd.emitted
            &&& ndp.received@ == nd.received@
            &&& (forall|e: int|
                0 <= e < pre.edges@.len() ==> post.edges@[e] == (if nd.outputs@.contains(
                    e as usize,
                ) {
                    Edge { finished: true, ..pre.edges@[e] }
                } else {
                    pre.edges@[e]
                }))
        },
        ProcKind::Transform => {
            let ie = nd.inputs@[0] as int;
            let oe = nd.outputs@[0] as int;
            &&& ndp.emitted == nd.emitted
            &&& ndp.received@ == nd.received@
            &&& if pre.edges@[ie].data is Some {
                let v = pre.edges@[ie].data.unwrap();
                post.edges@ == pre.edges@.update(
                    ie,
                    Edge { data: None, pulled: (pre.edges@[ie].pulled + 1) as u64, ..pre.edges@[ie] },
                ).update(
                    oe,
                    Edge {
                        data: Some(v),
                        pushed: (pre.edges@[oe].pushed + 1) as u64,
                        ..pre.edges@[oe]
                    },
                )
            } else {
                post.edges@ == pre.edges@.update(oe, Edge { finished: true, ..pre.edges@[oe] })
            }
        },
        ProcKind::Sink => {
            let j = first_input_data_from(nd.inputs@, pre.edges@, 0);
            &&& j < nd.inputs@.len()
            &&& {
                let e = nd.inputs@[j] as int;
                &&& ndp.emitted == nd.emitted
                &&& ndp.received@ == nd.received@.push(pre.edges@[e].data.unwrap())
                &&& post.edges@ == pre.edges@.update(
                    e,
                    Edge { data: None, pulled: (pre.edges@[e].pulled + 1) as u64, ..pre.edges@[e] },
                )
            }
        },
    }
}

/// A port may be finished only because its producing side is done: a source
/// that emitted everything, or a transform whose own input is finished and
/// drained.
pub open spec fn finished_legit(procs: Seq<ProcessorNode>, edges: Seq<Edge>, e: int) -> bool
    recommends
        0 <= e < edges.len(),
        edges[e].from < procs.len(),
{
    let from = edges[e].from as int;
    match procs[from].kind {
        ProcKind::Source => procs[from].emitted == procs[from].total,
        ProcKind::Transform => edges[procs[from].inputs@[0] as int].finished
            && edges[procs[from].inputs@[0] as int].data is None,
        ProcKind::Sink => true,
    }
}

/// The node wants a worker: its next step is `Sync` or `Async` work.
pub open spec fn runnable(g: RunningGraph, n: int) -> bool {
    g.event_spec(n) == Event::Sync || g.event_spec(n) == Event::Async
}

/// `m` is `n` itself, or the far end of one of `n`'s ports.
pub open spec fn in_neighborhood(g: RunningGraph, n: int, m: int) -> bool {
    ||| m == n
    ||| exists|j: int|
        0 <= j < g.procs@[n].inputs@.len() && g.edges@[g.procs@[n].inputs@[j] as int].from as int
            == m
    ||| exists|j: int|
        0 <= j < g.procs@[n].outputs@.len() && g.edges@[g.procs@[n].outputs@[j] as int].to as int
            == m
}

proof fn lemma_ffo_bounds(outs: Seq<usize>, edges: Seq<Edge>, j: int)
    requires
        0 <= j <= outs.len(),
    ensures
        j <= first_free_output_from(outs, edges, j) <= outs.len(),
    decreases outs.len() - j,
{
    if j < outs.len() && !edge_free(edges[outs[j] as int]) {
        lemma_ffo_bounds(outs, edges, j + 1);
    }
}

proof fn lemma_fid_bounds(ins: Seq<usize>, edges: Seq<Edge>, j: int)
    requires
        0 <= j <= ins.len(),
    ensures
        j <= first_input_data_from(ins, edges, j) <= ins.len(),
    decreases ins.len() - j,
{
    if j < ins.len() && !(edges[ins[j] as int].data is Some) {
        lemma_fid_bounds(ins, edges, j + 1);
    }
}

proof fn lemma_ffo_congruence(outs: Seq<usize>, edges1: Seq<Edge>, edges2: Seq<Edge>, j: int)
    requires
        0 <= j <= outs.len(),
        forall|k: int|
            0 <= k < outs.len() ==> edges2[#[trigger] outs[k] as int] == edges1[outs[k] as int],
    ensures
        first_free_output_from(outs, edges2, j) == first_free_output_from(outs, edges1, j),
    decreases outs.len() - j,
{
    if j < outs.len() {
        lemma_ffo_congruence(outs, edges1, edges2, j + 1);
    }
}

proof fn lemma_fid_congruence(ins: Seq<usize>, edges1: Seq<Edge>, edges2: Seq<Edge>, j: int)
    requires
        0 <= j <= ins.len(),
        forall|k: int|
            0 <= k < ins.len() ==> edges2[#[trigger] ins[k] as int] == edges1[ins[k] as int],
    ensures
        first_input_data_from(ins, edges2, j) == first_input_data_from(ins, edges1, j),
    decreases ins.len() - j,
{
    if j < ins.len() {
        lemma_fid_congruence(ins, edges1, edges2, j + 1);
    }
}

/// No listed output can take a unit when the search found none.
pub proof fn lemma_ffo_none(outs: Seq<usize>, edges: Seq<Edge>, j: int)
    requires
        0 <= j <= outs.len(),
        first_free_output_from(outs, edges, j) == outs.len(),
    ensures
        forall|k: int| j <= k < outs.len() ==> !edge_free(edges[#[trigger] outs[k] as int]),
    decreases outs.len() - j,
{
    if j < outs.len() {
        assert(!edge_free(edges[outs[j] as int]));
        lemma_ffo_none(outs, edges, j + 1);
    }
}

/// No listed input holds a unit when the search found none.
pub proof fn lemma_fid_none(ins: Seq<usize>, edges: Seq<Edge>, j: int)
    requires
        0 <= j <= ins.len(),
        first_input_data_from(ins, edges, j) == ins.len(),
    ensures
        forall|k: int| j <= k < ins.len() ==> edges[#[trigger] ins[k] as int].data is None,
    decreases ins.len() - j,
{
    if j < ins.len() {
        lemma_fid_none(ins, edges, j + 1);
    }
}

proof fn lemma_ffo_found(outs: Seq<usize>, edges: Seq<Edge>, j: int)
    requires
        0 <= j <= outs.len(),
        first_free_output_from(outs, edges, j) < outs.len(),
    ensures
        edge_free(edges[outs[first_free_output_from(outs, edges, j)] as int]),
    decreases outs.len() - j,
{
    if j < outs.len() && !edge_free(edges[outs[j] as int]) {
        lemma_ffo_found(outs, edges, j + 1);
    }
}

/// Failure propagation, first half: once every port is finished (as the
/// shutdown path forces), the only processors with runnable work left are
/// sinks draining their buffered units.
pub proof fn lemma_finished_ports_only_sinks_run(g: RunningGraph, n: int)
    requires
        g.wf(),
        0 <= n < g.node_count(),
        forall|e: int| 0 <= e < g.edge_count() ==> (#[trigger] g.edges@[e]).finished,
        runnable(g, n),
    ensures
        g.procs@[n].kind == ProcKind::Sink,
{
    let nd = g.procs@[n];
    match nd.kind {
        ProcKind::Source => {
            if nd.emitted < nd.total {
                if has_free_output(nd.outputs@, g.edges@) {
                    lemma_ffo_found(nd.outputs@, g.edges@, 0);
                    lemma_ffo_bounds(nd.outputs@, g.edges@, 0);
                    let j = first_free_output_from(nd.outputs@, g.edges@, 0);
                    assert(0 <= j < nd.outputs@.len());
                    assert(g.procs@[n].outputs@[j] < g.edges@.len());
                    assert(g.edges@[nd.outputs@[j] as int].finished);
                    assert(!g.edges@[nd.outputs@[j] as int].finished);
                    assert(false);
                }
            } else {
                assert(all_outputs_finished(nd.outputs@, g.edges@)) by {
                    assert forall|j: int|
                        0 <= j < nd.outputs@.len() implies g.edges@[#[trigger] nd.outputs@[j] as int].finished by {
                        assert(nd.outputs@[j] < g.edges@.len());
                    }
                }
            }
            assert(false);
        },
        ProcKind::Transform => {
            assert(g.edges@[nd.outputs@[0] as int].finished);
            assert(false);
        },
        ProcKind::Sink => {},
    }
}

/// Failure propagation, second half: a sink's unit of work only consumes —
/// it never pushes a unit into any port, so downstream delivery has stopped
/// for good once only sinks can run.
pub proof fn lemma_sink_step_pushes_nothing(
    pre: RunningGraph,
    post: RunningGraph,
    n: int,
    r: Result<(), ErrorCode>,
)
    requires
        pre.wf(),
        0 <= n < pre.node_count(),
        pre.procs@[n].kind == ProcKind::Sink,
        process_outcome(pre, post, n, r),
    ensures
        forall|e: int|
            0 <= e < pre.edges@.len() ==> (#[trigger] post.edges@[e]).pushed
                == pre.edges@[e].pushed,
        forall|e: int|
            0 <= e < pre.edges@.len() && (#[trigger] post.edges@[e]).data is Some
                ==> pre.edges@[e].data is Some,
{
    match r {
        Ok(_) => {
            let j = first_input_data_from(pre.procs@[n].inputs@, pre.edges@, 0);
            lemma_fid_bounds(pre.procs@[n].inputs@, pre.edges@, 0);
        },
        Err(_) => {},
    }
}

/// Backpressure, counted: a port never holds more than one unit ahead of
/// its consumer — the slot is the exact difference of the two transfer
/// counters, and it is never more than one.
pub proof fn lemma_port_buffer_bound(g: RunningGraph, e: int)
    requires
        g.wf(),
        0 <= e < g.edge_count(),
    ensures
        g.edges@[e].pushed - g.edges@[e].pulled <= 1,
        g.edges@[e].data is Some <==> g.edges@[e].pushed == g.edges@[e].pulled + 1,
        g.edges@[e].data is None <==> g.edges@[e].pushed == g.edges@[e].pulled,
{
    assert(port_wf(g.edges@[e]));
}

/// Progress, counted: in a pipeline where a source feeds a sink through one
/// port, any state in which neither node has runnable work left and every
/// finished port is legitimately finished has delivered each of the source's
/// `total` units to the sink exactly once, in order.
pub proof fn lemma_chain_pipeline_exact(g: RunningGraph, src: int, snk: int, eidx: usize)
    requires
        g.wf(),
        g.clean_finished(),
        0 <= src < g.node_count(),
        0 <= snk < g.node_count(),
        (eidx as int) < g.edge_count(),
        g.procs@[src].kind == ProcKind::Source,
        g.procs@[snk].kind == ProcKind::Sink,
        g.procs@[src].outputs@ =~= seq![eidx],
        g.procs@[snk].inputs@ =~= seq![eidx],
        g.edges@[eidx as int].from as int == src,
        g.edges@[eidx as int].to as int == snk,
        !runnable(g, src),
        !runnable(g, snk),
    ensures
        g.procs@[snk].received@.len() == g.procs@[src].total,
        forall|i: int|
            0 <= i < g.procs@[snk].received@.len() ==> g.procs@[snk].received@[i] == i,
{
    let ed = g.edges@[eidx as int];
    let sd = g.procs@[src];
    let kd = g.procs@[snk];
    // The sink is not runnable, so its only input port holds no unit.
    assert(ed.data is None) by {
        if has_input_data(kd.inputs@, g.edges@) {
            assert(runnable(g, snk));
        }
        lemma_fid_bounds(kd.inputs@, g.edges@, 0);
        lemma_fid_none(kd.inputs@, g.edges@, 0);
        assert(g.edges@[kd.inputs@[0] as int].data is None);
    }
    // The source is not runnable, so it has emitted everything.
    assert(sd.emitted == sd.total) by {
        if sd.emitted < sd.total {
            if has_free_output(sd.outputs@, g.edges@) {
                assert(runnable(g, src));
            }
            lemma_ffo_bounds(sd.outputs@, g.edges@, 0);
            lemma_ffo_none(sd.outputs@, g.edges@, 0);
            assert(!edge_free(g.edges@[sd.outputs@[0] as int]));
            assert(ed.finished);
            assert(finished_legit(g.procs@, g.edges@, eidx as int));
            assert(false);
        }
        assert(sd.emitted <= sd.total);
    }
    // Conservation through the port, and the order invariant.
    assert(port_wf(ed));
    assert(counters_wf(g.procs@, g.edges@, src));
    assert(sd.emitted == ed.pushed);
    assert(counters_wf(g.procs@, g.edges@, snk));
    assert(kd.received@.len() == ed.pulled);
    assert(ed.pushed == ed.pulled);
}

/// Fan-out and fan-in, counted: in a pipeline where one source feeds two
/// parallel transforms that converge on one sink, any state in which no
/// node has runnable work left and every finished port is legitimately
/// finished has delivered each of the source's `total` units to the sink
/// exactly once.
pub proof fn lemma_diamond_pipeline_count(
    g: RunningGraph,
    src: int,
    t1: int,
    t2: int,
    snk: int,
    a1: usize,
    a2: usize,
    b1: usize,
    b2: usize,
)
    requires
        g.wf(),
        g.clean_finished(),
        0 <= src < g.node_count(),
        0 <= t1 < g.node_count(),
        0 <= t2 < g.node_count(),
        0 <= snk < g.node_count(),
        (a1 as int) < g.edge_count(),
        (a2 as int) < g.edge_count(),
        (b1 as int) < g.edge_count(),
        (b2 as int) < g.edge_count(),
        a1 != a2,
        b1 != b2,
        g.procs@[src].kind == ProcKind::Source,
        g.procs@[t1].kind == ProcKind::Transform,
        g.procs@[t2].kind == ProcKind::Transform,
        g.procs@[snk].kind == ProcKind::Sink,
        g.procs@[src].outputs@ =~= seq![a1, a2],
        g.procs@[t1].inputs@ =~= seq![a1],
        g.procs@[t1].outputs@ =~= seq![b1],
        g.procs@[t2].inputs@ =~= seq![a2],
        g.procs@[t2].outputs@ =~= seq![b2],
        g.procs@[snk].inputs@ =~= seq![b1, b2],
        g.edges@[a1 as int].from as int == src,
        g.edges@[a1 as int].to as int == t1,
        g.edges@[a2 as int].from as int == src,
        g.edges@[a2 as int].to as int == t2,
        g.edges@[b1 as int].from as int == t1,
        g.edges@[b1 as int].to as int == snk,
        g.edges@[b2 as int].from as int == t2,
        g.edges@[b2 as int].to as int == snk,
        !runnable(g, src),
        !runnable(g, t1),
        !runnable(g, t2),
        !runnable(g, snk),
    ensures
        g.procs@[snk].received@.len() == g.procs@[src].total,
{
    let sd = g.procs@[src];
    let kd = g.procs@[snk];
    // The sink is not runnable, so neither of its input ports holds a unit.
    assert(g.edges@[b1 as int].data is None && g.edges@[b2 as int].data is None) by {
        if has_input_data(kd.inputs@, g.edges@) {
            assert(runnable(g, snk));
        }
        lemma_fid_bounds(kd.inputs@, g.edges@, 0);
        lemma_fid_none(kd.inputs@, g.edges@, 0);
        assert(g.edges@[kd.inputs@[0] as int].data is None);
        assert(g.edges@[kd.inputs@[1] as int].data is None);
    }
    // A transform whose output port is still open would leave someone
    // runnable, so both branch outputs are finished.
    assert(g.edges@[b1 as int].finished) by {
        if !g.edges@[b1 as int].finished {
            assert(g.edges@[a1 as int].data is None && !g.edges@[a1 as int].finished) by {
                if g.edges@[a1 as int].data is Some {
                    assert(runnable(g, t1));
                }
                if g.edges@[a1 as int].finished {
                    assert(g.event_spec(t1) == Event::Sync);
                    assert(runnable(g, t1));
                }
            }
            assert(edge_free(g.edges@[a1 as int]));
            if sd.emitted < sd.total {
                assert(first_free_output_from(sd.outputs@, g.edges@, 0) == 0);
                assert(has_free_output(sd.outputs@, g.edges@));
                assert(runnable(g, src));
            } else {
                assert(!all_outputs_finished(sd.outputs@, g.edges@)) by {
                    assert(!g.edges@[sd.outputs@[0] as int].finished);
                }
                assert(g.event_spec(src) == Event::Sync);
                assert(runnable(g, src));
            }
        }
    }
    assert(g.edges@[b2 as int].finished) by {
        if !g.edges@[b2 as int].finished {
            assert(g.edges@[a2 as int].data is None && !g.edges@[a2 as int].finished) by {
                if g.edges@[a2 as int].data is Some {
                    assert(runnable(g, t2));
                }
                if g.edges@[a2 as int].finished {
                    assert(g.event_spec(t2) == Event::Sync);
                    assert(runnable(g, t2));
                }
            }
            assert(edge_free(g.edges@[a2 as int]));
            if sd.emitted < sd.total {
                assert(first_free_output_from(sd.outputs@, g.edges@, 1) == 1);
                assert(first_free_output_from(sd.outputs@, g.edges@, 0) < 2);
                assert(has_free_output(sd.outputs@, g.edges@));
                assert(runnable(g, src));
            } else {
                assert(!all_outputs_finished(sd.outputs@, g.edges@)) by {
                    assert(!g.edges@[sd.outputs@[1] as int].finished);
                }
                assert(g.event_spec(src) == Event::Sync);
                assert(runnable(g, src));
            }
        }
    }
    // Legitimately finished branch outputs mean drained, finished branch
    // inputs, and those in turn mean the source emitted everything.
    assert(finished_legit(g.procs@, g.edges@, b1 as int));
    assert(g.edges@[a1 as int].finished && g.edges@[a1 as int].data is None);
    assert(finished_legit(g.procs@, g.edges@, b2 as int));
    assert(g.edges@[a2 as int].finished && g.edges@[a2 as int].data is None);
    assert(finished_legit(g.procs@, g.edges@, a1 as int));
    assert(sd.emitted == sd.total);
    // Conservation through all four single-slot ports.
    assert(port_wf(g.edges@[a1 as int]));
    assert(port_wf(g.edges@[a2 as int]));
    assert(port_wf(g.edges@[b1 as int]));
    assert(port_wf(g.edges@[b2 as int]));
    assert(counters_wf(g.procs@, g.edges@, src));
    assert(counters_wf(g.procs@, g.edges@, t1));
    assert(counters_wf(g.procs@, g.edges@, t2));
    assert(counters_wf(g.procs@, g.edges@, snk));
    assert(sd.emitted == g.edges@[a1 as int].pushed + g.edges@[a2 as int].pushed);
    assert(kd.received@.len() == g.edges@[b1 as int].pulled + g.edges@[b2 as int].pulled);
}

/// Adjacency is a function of the port lists and edge endpoints alone.
pub proof fn lemma_neighborhood_eq(g1: RunningGraph, g2: RunningGraph, n: int, m: int)
    requires
        0 <= n < g1.procs@.len(),
        g1.wf(),
        g2.procs@.len() == g1.procs@.len(),
        g2.edges@.len() == g1.edges@.len(),
        g2.procs@[n].inputs@ == g1.procs@[n].inputs@,
        g2.procs@[n].outputs@ == g1.procs@[n].outputs@,
        forall|e: int|
            0 <= e < g1.edges@.len() ==> (#[trigger] g2.edges@[e]).from == g1.edges@[e].from
                && g2.edges@[e].to == g1.edges@[e].to,
    ensures
        in_neighborhood(g2, n, m) == in_neighborhood(g1, n, m),
{
    if in_neighborhood(g1, n, m) && m != n {
        if exists|j: int|
            0 <= j < g1.procs@[n].inputs@.len()
                && g1.edges@[g1.procs@[n].inputs@[j] as int].from as int == m {
            let j = choose|j: int|
                0 <= j < g1.procs@[n].inputs@.len()
                    && g1.edges@[g1.procs@[n].inputs@[j] as int].from as int == m;
            assert(g2.edges@[g2.procs@[n].inputs@[j] as int].from as int == m);
        } else {
            let j = choose|j: int|
                0 <= j < g1.procs@[n].outputs@.len()
                    && g1.edges@[g1.procs@[n].outputs@[j] as int].to as int == m;
            assert(g2.edges@[g2.procs@[n].outputs@[j] as int].to as int == m);
        }
    }
    if in_neighborhood(g2, n, m) && m != n {
        if exists|j: int|
            0 <= j < g2.procs@[n].inputs@.len()
                && g2.edges@[g2.procs@[n].inputs@[j] as int].from as int == m {
            let j = choose|j: int|
                0 <= j < g2.procs@[n].inputs@.len()
                    && g2.edges@[g2.procs@[n].inputs@[j] as int].from as int == m;
            assert(g1.edges@[g1.procs@[n].inputs@[j] as int].from as int == m);
        } else {
            let j = choose|j: int|
                0 <= j < g2.procs@[n].outputs@.len()
                    && g2.edges@[g2.procs@[n].outputs@[j] as int].to as int == m;
            assert(g1.edges@[g1.procs@[n].outputs@[j] as int].to as int == m);
        }
    }
}

/// A work step only rewrites ports listed on the worked node, and never
/// moves a port's endpoints.
pub proof fn lemma_process_frame(
    pre: RunningGraph,
    post: RunningGraph,
    n: int,
    r: Result<(), ErrorCode>,
)
    requires
        pre.wf(),
        0 <= n < pre.node_count(),
        process_outcome(pre, post, n, r),
    ensures
        forall|e: int|
            0 <= e < pre.edges@.len() && !pre.procs@[n].inputs@.contains(e as usize)
                && !pre.procs@[n].outputs@.contains(e as usize) ==> post.edges@[e]
                == pre.edges@[e],
        forall|e: int|
            0 <= e < pre.edges@.len() ==> (#[trigger] post.edges@[e]).from == pre.edges@[e].from
                && post.edges@[e].to == pre.edges@[e].to,
{
    let nd = pre.procs@[n];
    assert forall|e: int|
        0 <= e < pre.edges@.len() && !nd.inputs@.contains(e as usize) && !nd.outputs@.contains(
        e as usize,
    ) implies post.edges@[e] == pre.edges@[e] by {
        match r {
            Ok(_) => {
                match nd.kind {
                    ProcKind::Source => {
                        if nd.emitted < nd.total {
                            let j = first_free_output_from(nd.outputs@, pre.edges@, 0);
                            lemma_ffo_bounds(nd.outputs@, pre.edges@, 0);
                            assert(nd.outputs@.contains(nd.outputs@[j]));
                            assert(e != nd.outputs@[j] as int);
                        }
                    },
                    ProcKind::Transform => {
                        assert(nd.inputs@.contains(nd.inputs@[0]));
                        assert(nd.outputs@.contains(nd.outputs@[0]));
                    },
                    ProcKind::Sink => {
                        let j = first_input_data_from(nd.inputs@, pre.edges@, 0);
                        lemma_fid_bounds(nd.inputs@, pre.edges@, 0);
                        assert(nd.inputs@.contains(nd.inputs@[j]));
                    },
                }
            },
            Err(_) => {},
        }
    }
    assert forall|e: int| 0 <= e < pre.edges@.len() implies (#[trigger] post.edges@[e]).from
        == pre.edges@[e].from && post.edges@[e].to == pre.edges@[e].to by {
        match r {
            Ok(_) => {
                match nd.kind {
                    ProcKind::Source => {
                        if nd.emitted < nd.total {
                            lemma_ffo_bounds(nd.outputs@, pre.edges@, 0);
                        } else {
                            assert(post.edges@[e] == (if nd.outputs@.contains(e as usize) {
                                Edge { finished: true, ..pre.edges@[e] }
                            } else {
                                pre.edges@[e]
                            }));
                        }
                    },
                    ProcKind::Transform => {},
                    ProcKind::Sink => {
                        lemma_fid_bounds(nd.inputs@, pre.edges@, 0);
                    },
                }
            },
            Err(_) => {},
        }
    }
}

/// Work on node `n` leaves the readiness of every node outside `n`'s closed
/// neighborhood untouched.
pub proof fn lemma_event_frame(pre: RunningGraph, post: RunningGraph, n: int, m: int)
    requires
        pre.wf(),
        0 <= n < pre.node_count(),
        0 <= m < pre.node_count(),
        post.procs@.len() == pre.procs@.len(),
        post.edges@.len() == pre.edges@.len(),
        forall|x: int| 0 <= x < pre.procs@.len() && x != n ==> post.procs@[x] == pre.procs@[x],
        forall|e: int|
            0 <= e < pre.edges@.len() && !pre.procs@[n].inputs@.contains(e as usize)
                && !pre.procs@[n].outputs@.contains(e as usize) ==> post.edges@[e]
                == pre.edges@[e],
        !in_neighborhood(pre, n, m),
    ensures
        post.event_spec(m) == pre.event_spec(m),
{
    assert(m != n);
    let md = pre.procs@[m];
    assert(pre.edges@.len() <= usize::MAX) by {
        assert(pre.edges.len() == pre.edges@.len());
    }
    assert forall|k: int| 0 <= k < md.inputs@.len() implies post.edges@[
        #[trigger] md.inputs@[k] as int] == pre.edges@[md.inputs@[k] as int] by {
        let e = md.inputs@[k] as int;
        assert(pre.edges@[e].to == m);
        if pre.procs@[n].inputs@.contains(e as usize) {
            let j = choose|j: int|
                0 <= j < pre.procs@[n].inputs@.len() && pre.procs@[n].inputs@[j] == e as usize;
            assert(pre.edges@[pre.procs@[n].inputs@[j] as int].to == n);
            assert(false);
        }
        if pre.procs@[n].outputs@.contains(e as usize) {
            let j = choose|j: int|
                0 <= j < pre.procs@[n].outputs@.len() && pre.procs@[n].outputs@[j] == e as usize;
            assert(pre.edges@[pre.procs@[n].outputs@[j] as int].from == n);
            assert(pre.edges@[pre.procs@[n].outputs@[j] as int].to as int == m);
            assert(in_neighborhood(pre, n, m));
            assert(false);
        }
    }
    assert forall|k: int| 0 <= k < md.outputs@.len() implies post.edges@[
        #[trigger] md.outputs@[k] as int] == pre.edges@[md.outputs@[k] as int] by {
        let e = md.outputs@[k] as int;
        assert(pre.edges@[e].from == m);
        if pre.procs@[n].outputs@.contains(e as usize) {
            let j = choose|j: int|
                0 <= j < pre.procs@[n].outputs@.len() && pre.procs@[n].outputs@[j] == e as usize;
            assert(pre.edges@[pre.procs@[n].outputs@[j] as int].from == n);
            assert(false);
        }
        if pre.procs@[n].inputs@.contains(e as usize) {
            let j = choose|j: int|
                0 <= j < pre.procs@[n].inputs@.len() && pre.procs@[n].inputs@[j] == e as usize;
            assert(pre.edges@[pre.procs@[n].inputs@[j] as int].to == n);
            assert(pre.edges@[pre.procs@[n].inputs@[j] as int].from as int == m);
            assert(in_neighborhood(pre, n, m));
            assert(false);
        }
    }
    lemma_ffo_congruence(md.outputs@, pre.edges@, post.edges@, 0);
    lemma_fid_congruence(md.inputs@, pre.edges@, post.edges@, 0);
    match md.kind {
        ProcKind::Source => {
            assert(has_free_output(md.outputs@, post.edges@) == has_free_output(
                md.outputs@,
                pre.edges@,
            ));
            assert(all_outputs_finished(md.outputs@, post.edges@) == all_outputs_finished(
                md.outputs@,
                pre.edges@,
            ));
        },
        ProcKind::Transform => {
            assert(post.edges@[md.inputs@[0] as int] == pre.edges@[md.inputs@[0] as int]);
            assert(post.edges@[md.outputs@[0] as int] == pre.edges@[md.outputs@[0] as int]);
        },
        ProcKind::Sink => {
            assert(has_input_data(md.inputs@, post.edges@) == has_input_data(
                md.inputs@,
                pre.edges@,
            ));
            assert(all_inputs_finished(md.inputs@, post.edges@) == all_inputs_finished(
                md.inputs@,
                pre.edges@,
            ));
        },
    }
}

impl RunningGraph {
    /// Force every port to end-of-stream; used on failure and on
    /// cancellation so that blocked processors observe shutdown rather than
    /// hang.  Buffered units stay in place so queued work can still drain
    /// them.
    pub fn force_finish_all_ports(&mut self)
        requires
            old(self).wf(),
        ensures
            final(self).wf(),
            final(self).procs@ == old(self).procs@,
            final(self).edges@.len() == old(self).edges@.len(),
            forall|e: int|
                0 <= e < old(self).edges@.len() ==> final(self).edges@[e] == (Edge {
                    finished: true,
                    ..old(self).edges@[e]
                }),
    {
        let count = self.edges.len();
        let mut i: usize = 0;
        while i < count
            invariant
                count == self.edges@.len(),
                self.edges@.len() == old(self).edges@.len(),
                self.procs@ == old(self).procs@,
                i <= count,
                forall|e: int|
                    0 <= e < i ==> self.edges@[e] == (Edge { finished: true, ..old(self).edges@[e] }),
                forall|e: int| i <= e < count ==> self.edges@[e] == old(self).edges@[e],
            decreases count - i,
        {
            let mut ed = self.edges[i];
            ed.finished = true;
            self.edges[i] = ed;
            i = i + 1;
        }
        proof {
            assert forall|n: int| 0 <= n < final(self).node_count() implies counters_wf(
                final(self).procs@,
                final(self).edges@,
                n,
            ) by {
                assert(counters_wf(old(self).procs@, old(self).edges@, n));
            }
        }
    }
}

} // verus!
