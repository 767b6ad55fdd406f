use query_core::error::ErrorKind;
use query_core::executor::run;
use query_core::executor::PipelineExecutor;
use query_core::graph::ProcKind;
use query_core::graph::RunningGraph;
use query_core::notify::WorkersNotify;
use query_core::processor::Event;
use query_core::tasks::ExecutorTask;
use query_core::tasks::ExecutorTasksQueue;
use query_core::tasks::ExecutorWorkerContext;

fn chain(n: u64) -> (RunningGraph, usize, usize) {
    let mut g = RunningGraph::create();
    let src = g.add_node(ProcKind::Source, n, 0, 0);
    let snk = g.add_node(ProcKind::Sink, 0, 0, 0);
    g.connect(src, snk);
    (g, src, snk)
}

#[test]
fn progress_delivers_every_unit() {
    for workers in [1usize, 2, 4] {
        for n in [0u64, 1, 2, 7, 100] {
            let (g, _, snk) = chain(n);
            let (res, g) = run(g, workers);
            assert!(res.is_ok());
            let received = &g.procs[snk].received;
            assert_eq!(received.len() as u64, n);
            for (i, v) in received.iter().enumerate() {
                assert_eq!(*v, i as u64);
            }
        }
    }
}

#[test]
fn progress_entry_point_delivers_in_order() {
    let (res, ex) = query_core::executor::run_source_to_sink(9, 3);
    assert!(res.is_ok());
    assert_eq!(ex.graph.procs[1].received, (0..9).collect::<Vec<u64>>());
}

#[test]
fn progress_zero_units_terminates_immediately() {
    let (g, _, snk) = chain(0);
    let (res, g) = run(g, 1);
    assert!(res.is_ok());
    assert!(g.procs[snk].received.is_empty());
}

#[test]
fn backpressure_port_buffers_at_most_one_unit() {
    let (mut g, src, snk) = chain(5);
    // The source emits one unit into the single-slot port.
    assert_eq!(g.event(src), Event::Sync);
    g.process(src).unwrap();
    assert!(g.edges[0].data.is_some());
    // With the port full, the source reports backpressure instead of
    // producing ahead.
    assert_eq!(g.event(src), Event::NeedConsume);
    // Draining the port makes the source runnable again.
    assert_eq!(g.event(snk), Event::Sync);
    g.process(snk).unwrap();
    assert!(g.edges[0].data.is_none());
    assert_eq!(g.event(src), Event::Sync);
    assert_eq!(g.procs[src].emitted, 1);
}

#[test]
fn fan_out_fan_in_delivers_each_unit_once() {
    let n = 24u64;
    let mut g = RunningGraph::create();
    let src = g.add_node(ProcKind::Source, n, 0, 0);
    let t1 = g.add_node(ProcKind::Transform, 0, 0, 0);
    let t2 = g.add_node(ProcKind::Transform, 0, 0, 0);
    let snk = g.add_node(ProcKind::Sink, 0, 0, 0);
    g.connect(src, t1);
    g.connect(src, t2);
    g.connect(t1, snk);
    g.connect(t2, snk);
    let (res, g) = run(g, 4);
    assert!(res.is_ok());
    let mut received = g.procs[snk].received.clone();
    received.sort_unstable();
    let expected: Vec<u64> = (0..n).collect();
    assert_eq!(received, expected);
}

#[test]
fn fan_out_entry_point_counts_every_unit() {
    let (res, ex) = query_core::executor::run_fan_out_fan_in(24, 4);
    assert!(res.is_ok());
    assert_eq!(ex.graph.procs[3].received.len(), 24);
}

#[test]
fn failure_is_latched_and_stops_downstream_units() {
    let n = 10u64;
    let fail_at = 3u64;
    let mut g = RunningGraph::create();
    let src = g.add_node(ProcKind::Source, n, 0, 0);
    let t = g.add_node(ProcKind::Transform, 0, fail_at, 0);
    let snk = g.add_node(ProcKind::Sink, 0, 0, 0);
    g.connect(src, t);
    g.connect(t, snk);
    let (res, g) = run(g, 2);
    let err = res.unwrap_err();
    assert_eq!(err.kind(), ErrorKind::ProcessorError);
    // After the failure is latched no further unit reaches the sink.
    assert!((g.procs[snk].received.len() as u64) < fail_at);
}

#[test]
fn async_round_trip_preserves_submission_order() {
    for workers in [1usize, 8] {
        let m = 12u64;
        let mut g = RunningGraph::create();
        let src = g.add_node(ProcKind::Source, m, 0, 0);
        // Every second call of the transform goes through the offload path.
        let t = g.add_node(ProcKind::Transform, 0, 0, 2);
        let snk = g.add_node(ProcKind::Sink, 0, 0, 0);
        g.connect(src, t);
        g.connect(t, snk);
        let (res, g) = run(g, workers);
        assert!(res.is_ok());
        let received = &g.procs[snk].received;
        assert_eq!(received.len() as u64, m);
        for (i, v) in received.iter().enumerate() {
            assert_eq!(*v, i as u64);
        }
    }
}

#[test]
fn async_source_completes() {
    // A source whose every call is offloaded still drives to completion.
    let mut g = RunningGraph::create();
    let src = g.add_node(ProcKind::Source, 5, 0, 1);
    let snk = g.add_node(ProcKind::Sink, 0, 0, 0);
    g.connect(src, snk);
    let (res, g) = run(g, 2);
    assert!(res.is_ok());
    assert_eq!(g.procs[snk].received.len(), 5);
}

#[test]
fn cancellation_returns_success() {
    // A source that could produce an enormous stream: cancellation lets the
    // run finish successfully after draining what was queued.
    let mut g = RunningGraph::create();
    let src = g.add_node(ProcKind::Source, u64::MAX, 0, 0);
    let snk = g.add_node(ProcKind::Sink, 0, 0, 0);
    g.connect(src, snk);
    let mut ex = PipelineExecutor::create(g, 2);
    ex.cancel();
    let res = ex.execute();
    assert!(res.is_ok());
}

#[test]
fn failure_error_is_the_first_one_latched() {
    // Two failing processors; the reported error is a processor error and
    // the run stops.
    let mut g = RunningGraph::create();
    let src = g.add_node(ProcKind::Source, 8, 0, 0);
    let t = g.add_node(ProcKind::Transform, 0, 1, 0);
    let snk = g.add_node(ProcKind::Sink, 0, 2, 0);
    g.connect(src, t);
    g.connect(t, snk);
    let (res, g) = run(g, 1);
    assert_eq!(res.unwrap_err().kind(), ErrorKind::ProcessorError);
    assert!(g.procs[snk].received.is_empty());
}

#[test]
fn task_queue_never_double_schedules() {
    let mut q = ExecutorTasksQueue::create(3);
    assert!(q.push_ready(1));
    // A second insert of the same node identity is a no-op.
    assert!(!q.push_ready(1));
    assert!(q.push_ready(2));
    assert_eq!(q.pop_ready(), Some(1));
    // Node 1 is still in flight (held by the worker), so it cannot be
    // queued again until its task finishes.
    assert!(!q.push_ready(1));
    q.finish_task(1);
    assert!(q.push_ready(1));
    assert_eq!(q.pop_ready(), Some(2));
    assert_eq!(q.pop_ready(), Some(1));
    assert_eq!(q.pop_ready(), None);
}

#[test]
fn worker_context_holds_one_task() {
    let mut ctx = ExecutorWorkerContext::create(3);
    assert_eq!(ctx.get_worker_num(), 3);
    assert!(!ctx.has_task());
    ctx.set_task(ExecutorTask::Sync(7));
    assert!(ctx.has_task());
    match ctx.take_task() {
        ExecutorTask::Sync(n) => assert_eq!(n, 7),
        _ => panic!("expected the synchronous task back"),
    }
    assert!(!ctx.has_task());
}

#[test]
fn notifier_never_loses_a_wake() {
    let mut notify = WorkersNotify::create(2);
    // A wake posted before the worker parks is kept and consumed by the
    // next park attempt.
    notify.wakeup(0);
    assert!(notify.wait(0));
    // With no pending wake the worker parks.
    assert!(!notify.wait(0));
    assert!(notify.has_waiting());
    notify.wakeup_all();
    assert!(notify.wait(0));
    assert!(notify.wait(1));
}
