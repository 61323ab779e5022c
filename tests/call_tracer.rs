use call_tracer::cell::{AlreadySet, ResultCell};
use call_tracer::cli::ZkStackSubcommands;
use call_tracer::observers::{EventLog, HookMark, Observer, Observers};
use call_tracer::record::{Address, CallError, CallHead, CallKind, CallRecord, Trace};
use call_tracer::tracer::{CallTracer, TraceError};

const MAX_DEPTH: usize = 8;

fn addr(b: u8) -> Address {
    Address { bytes: [b; 20] }
}

fn head(kind: CallKind, from: u8, to: u8, input: Vec<u8>) -> CallHead {
    CallHead {
        kind,
        from: addr(from),
        to: addr(to),
        value: 0,
        gas_limit: 1_000_000,
        input,
    }
}

fn call(to: u8) -> CallHead {
    head(CallKind::Call, 0xaa, to, vec![])
}

fn subcalls<'a>(trace: &'a Trace, r: &CallRecord) -> Vec<&'a CallRecord> {
    r.calls.iter().map(|&i| trace.record(i)).collect()
}

fn increment_by_6_calldata() -> Vec<u8> {
    let mut data = vec![0x7c, 0xf5, 0xda, 0xb0];
    data.extend(std::iter::repeat(0u8).take(31));
    data.push(6);
    data
}

#[test]
fn test_max_depth() {
    // A contract that calls itself far beyond the nesting limit; the
    // interpreter fails the transaction when it runs out of gas.
    let mut tracer = CallTracer::new(MAX_DEPTH);
    let attempts = 50;
    for _ in 0..attempts {
        tracer.on_enter(call(1)).unwrap();
    }
    for i in 0..attempts {
        let outcome = if i + 1 == attempts { Err(CallError::OutOfGas) } else { Err(CallError::Revert) };
        tracer.on_exit(10, outcome).unwrap();
    }
    tracer.finalize().unwrap();
    let result = tracer.result();
    assert!(result.is_some());
    let trace = result.unwrap();
    assert_eq!(trace.roots().len(), 1);
    let top = trace.root(0);
    assert!(top.error.is_some());
    // The chain goes down to the limit and stops there.
    let mut r = top;
    let mut depth = 0;
    while !r.calls.is_empty() {
        assert_eq!(r.calls.len(), 1);
        assert_eq!(r.depth, depth);
        r = trace.record(r.calls[0]);
        depth += 1;
    }
    assert_eq!(depth, MAX_DEPTH);
    assert_eq!(r.depth, MAX_DEPTH);
    assert_eq!(r.error, Some(CallError::DepthExceeded));
    assert_eq!(trace.records.len(), MAX_DEPTH + 1);
}

#[test]
fn test_basic_behavior() {
    let mut tracer = CallTracer::new(MAX_DEPTH);
    tracer.on_enter(head(CallKind::Call, 0xaa, 1, increment_by_6_calldata())).unwrap();
    // Supporting calls made while the transaction runs.
    for k in 0..12u8 {
        tracer.on_enter(head(CallKind::StaticCall, 1, 0x80 + k, vec![k])).unwrap();
        tracer.on_exit(5, Ok(vec![k])).unwrap();
    }
    tracer.on_exit(100, Ok(vec![])).unwrap();
    tracer.finalize().unwrap();
    let call_tracer_result = tracer.result().unwrap();
    assert_eq!(call_tracer_result.roots().len(), 1);
    let top = call_tracer_result.root(0);
    assert!(top.calls.len() > 10);
    assert!(top.error.is_none());
    assert_eq!(top.head.input, increment_by_6_calldata());
}

#[test]
fn leaf_transaction_has_no_subcalls() {
    let mut tracer = CallTracer::new(MAX_DEPTH);
    tracer.on_enter(call(2)).unwrap();
    tracer.on_exit(21, Ok(vec![1, 2])).unwrap();
    tracer.finalize().unwrap();
    let trace = tracer.result().unwrap();
    assert_eq!(trace.roots().len(), 1);
    let top = trace.root(0);
    assert!(top.calls.is_empty());
    assert_eq!(top.error, None);
    assert_eq!(top.output, Some(vec![1, 2]));
    assert_eq!(top.gas_used, 21);
    assert_eq!(top.depth, 0);
}

#[test]
fn one_top_level_record_per_transaction_in_order() {
    let mut tracer = CallTracer::new(MAX_DEPTH);
    for to in [3u8, 4, 5] {
        tracer.on_enter(call(to)).unwrap();
        tracer.on_enter(call(0x10 + to)).unwrap();
        tracer.on_exit(1, Ok(vec![])).unwrap();
        tracer.on_exit(2, Ok(vec![])).unwrap();
    }
    tracer.finalize().unwrap();
    let trace = tracer.result().unwrap();
    assert_eq!(trace.roots().len(), 3);
    let targets: Vec<Address> = (0..3).map(|k| trace.root(k).head.to).collect();
    assert_eq!(targets, vec![addr(3), addr(4), addr(5)]);
    for k in 0..3 {
        let subs = subcalls(trace, trace.root(k));
        assert_eq!(subs.len(), 1);
        assert_eq!(subs[0].depth, 1);
    }
}

#[test]
fn subcalls_keep_call_order_and_nesting() {
    let mut tracer = CallTracer::new(MAX_DEPTH);
    tracer.on_enter(call(1)).unwrap();
    tracer.on_enter(head(CallKind::DelegateCall, 1, 2, vec![])).unwrap();
    tracer.on_enter(head(CallKind::Create, 2, 3, vec![])).unwrap();
    tracer.on_exit(1, Ok(vec![3])).unwrap();
    tracer.on_exit(2, Err(CallError::Revert)).unwrap();
    tracer.on_enter(head(CallKind::StaticCall, 1, 4, vec![])).unwrap();
    tracer.on_exit(3, Ok(vec![4])).unwrap();
    tracer.on_exit(4, Ok(vec![])).unwrap();
    tracer.finalize().unwrap();
    let trace = tracer.result().unwrap();
    let top = trace.root(0);
    let subs = subcalls(trace, top);
    assert_eq!(subs.len(), 2);
    assert_eq!(subs[0].head.kind, CallKind::DelegateCall);
    assert_eq!(subs[0].error, Some(CallError::Revert));
    assert_eq!(subs[0].output, None);
    assert_eq!(subs[1].head.kind, CallKind::StaticCall);
    assert_eq!(subs[1].output, Some(vec![4]));
    let inner = subcalls(trace, subs[0]);
    assert_eq!(inner.len(), 1);
    assert_eq!(inner[0].head.kind, CallKind::Create);
    assert_eq!(inner[0].depth, 2);
    // A failed subcall does not mark its parent.
    assert_eq!(top.error, None);
}

#[test]
fn depth_limit_marks_the_attempting_frame() {
    let mut tracer = CallTracer::new(1);
    tracer.on_enter(call(1)).unwrap();
    tracer.on_enter(call(2)).unwrap();
    // Too deep: no frame is opened, the frame at the limit is marked.
    tracer.on_enter(call(3)).unwrap();
    assert_eq!(tracer.open_calls(), 2);
    tracer.on_exit(1, Err(CallError::OutOfGas)).unwrap();
    assert_eq!(tracer.open_calls(), 2);
    tracer.on_exit(2, Ok(vec![9])).unwrap();
    tracer.on_exit(3, Ok(vec![])).unwrap();
    tracer.finalize().unwrap();
    let trace = tracer.result().unwrap();
    let top = trace.root(0);
    assert_eq!(top.error, None);
    let subs = subcalls(trace, top);
    assert_eq!(subs.len(), 1);
    assert_eq!(subs[0].depth, 1);
    assert!(subs[0].calls.is_empty());
    assert_eq!(subs[0].error, Some(CallError::DepthExceeded));
    assert_eq!(subs[0].output, Some(vec![9]));
}

#[test]
fn zero_depth_limit_keeps_only_top_level_calls() {
    let mut tracer = CallTracer::new(0);
    tracer.on_enter(call(1)).unwrap();
    tracer.on_enter(call(2)).unwrap();
    tracer.on_exit(1, Ok(vec![])).unwrap();
    tracer.on_exit(2, Ok(vec![])).unwrap();
    tracer.finalize().unwrap();
    let trace = tracer.result().unwrap();
    assert_eq!(trace.records.len(), 1);
    assert_eq!(trace.root(0).error, Some(CallError::DepthExceeded));
}

#[test]
fn result_is_unavailable_before_finalization() {
    let mut tracer = CallTracer::new(MAX_DEPTH);
    assert!(tracer.result().is_none());
    tracer.on_enter(call(1)).unwrap();
    tracer.on_exit(1, Ok(vec![])).unwrap();
    assert!(tracer.result().is_none());
    tracer.finalize().unwrap();
    assert!(tracer.result().is_some());
}

#[test]
fn finalizing_twice_is_rejected() {
    let mut tracer = CallTracer::new(MAX_DEPTH);
    tracer.on_enter(call(1)).unwrap();
    tracer.on_exit(1, Ok(vec![])).unwrap();
    assert_eq!(tracer.finalize(), Ok(()));
    assert_eq!(tracer.finalize(), Err(TraceError::AlreadyFinalized));
    assert_eq!(tracer.result().unwrap().roots().len(), 1);
}

#[test]
fn finalizing_with_open_calls_is_rejected() {
    let mut tracer = CallTracer::new(MAX_DEPTH);
    tracer.on_enter(call(1)).unwrap();
    assert_eq!(tracer.finalize(), Err(TraceError::UnclosedFrames));
    assert!(tracer.result().is_none());
    tracer.on_exit(1, Ok(vec![])).unwrap();
    assert_eq!(tracer.finalize(), Ok(()));
}

#[test]
fn exit_without_open_call_is_rejected() {
    let mut tracer = CallTracer::new(MAX_DEPTH);
    assert_eq!(tracer.on_exit(1, Ok(vec![])), Err(TraceError::EmptyStack));
}

#[test]
fn events_after_finalization_are_rejected() {
    let mut tracer = CallTracer::new(MAX_DEPTH);
    tracer.finalize().unwrap();
    assert_eq!(tracer.on_enter(call(1)), Err(TraceError::AlreadyFinalized));
    assert_eq!(tracer.on_exit(1, Ok(vec![])), Err(TraceError::AlreadyFinalized));
    assert_eq!(tracer.result().unwrap().roots().len(), 0);
}

#[test]
fn result_cell_is_write_once() {
    let mut cell: ResultCell<u32> = ResultCell::new();
    assert!(cell.get().is_none());
    assert!(!cell.is_set());
    assert!(cell.set(7).is_ok());
    match cell.set(8) {
        Err(AlreadySet(v)) => assert_eq!(v, 8),
        Ok(()) => panic!("second write accepted"),
    }
    assert_eq!(cell.get(), Some(&7));
}

#[test]
fn two_observers_see_the_same_events() {
    let mut observers = Observers::new();
    observers.register(Observer::Log(EventLog::new()));
    observers.register(Observer::Calls(CallTracer::new(MAX_DEPTH)));
    observers.register(Observer::Log(EventLog::new()));
    let h = call(1);
    assert_eq!(observers.on_enter(&h), vec![Ok(()); 3]);
    let h2 = head(CallKind::StaticCall, 1, 2, vec![5]);
    assert_eq!(observers.on_enter(&h2), vec![Ok(()); 3]);
    assert_eq!(observers.on_exit(3, &Err(CallError::Revert)), vec![Ok(()); 3]);
    assert_eq!(observers.on_exit(4, &Ok(vec![1])), vec![Ok(()); 3]);
    let list = observers.into_list();
    let logs: Vec<&Vec<HookMark>> = list
        .iter()
        .filter_map(|o| match o {
            Observer::Log(l) => Some(l.marks()),
            Observer::Calls(_) => None,
        })
        .collect();
    assert_eq!(logs.len(), 2);
    assert_eq!(logs[0], logs[1]);
    assert_eq!(
        logs[0],
        &vec![
            HookMark::Enter(CallKind::Call),
            HookMark::Enter(CallKind::StaticCall),
            HookMark::Exit(false),
            HookMark::Exit(true),
        ]
    );
    let mut list = list;
    match &mut list[1] {
        Observer::Calls(t) => {
            t.finalize().unwrap();
            let trace = t.result().unwrap();
            let top = trace.root(0);
            assert_eq!(top.output, Some(vec![1]));
            let subs = subcalls(trace, top);
            assert_eq!(subs.len(), 1);
            assert_eq!(subs[0].head.input, vec![5]);
            assert_eq!(subs[0].error, Some(CallError::Revert));
        }
        Observer::Log(_) => panic!("observer order changed"),
    }
}

#[test]
fn tracer_error_in_one_observer_leaves_others_alone() {
    let mut observers = Observers::new();
    observers.register(Observer::Calls(CallTracer::new(MAX_DEPTH)));
    observers.register(Observer::Log(EventLog::new()));
    let answers = observers.on_exit(1, &Ok(vec![]));
    assert_eq!(answers, vec![Err(TraceError::EmptyStack), Ok(())]);
    match observers.get(1) {
        Observer::Log(l) => assert_eq!(l.marks(), &vec![HookMark::Exit(true)]),
        Observer::Calls(_) => panic!("observer order changed"),
    }
}

#[test]
fn duplicate_copies_the_input() {
    let h = head(CallKind::Create, 1, 2, vec![1, 2, 3]);
    let d = h.duplicate();
    assert_eq!(d.input, vec![1, 2, 3]);
    assert_eq!(d.kind, CallKind::Create);
    assert_eq!(d.to, addr(2));
}

#[test]
fn only_markdown_command_is_hidden() {
    assert!(ZkStackSubcommands::Markdown.is_hidden());
    assert!(!ZkStackSubcommands::Chain.is_hidden());
    assert!(!ZkStackSubcommands::Portal.is_hidden());
}
