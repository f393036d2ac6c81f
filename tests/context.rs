use graph_runtime_wasm::builtins::{abort_error, handler_failed, push_decimal};
use graph_runtime_wasm::context::{EntityOp, ExecutionContext, Phase, CHECKPOINT_INTERVAL};
use graph_runtime_wasm::error::{HostError, InstantiationError, Trap};
use graph_runtime_wasm::version::SemVer;

fn ready_context(timeout: Option<u64>) -> ExecutionContext {
    let mut ctx = ExecutionContext::new(SemVer::new(0, 0, 4), timeout);
    ctx.begin_start();
    ctx.finish_start();
    ctx
}

#[test]
fn null_abort() {
    assert_eq!(
        abort_error(None, None, 0, 0),
        HostError::MappingAborted {
            location: "an unknown location".to_string(),
            message: "no message".to_string()
        }
    );
}

#[test]
fn located_abort() {
    assert_eq!(
        abort_error(Some("bad".to_string()), Some("m.ts".to_string()), 12, 4),
        HostError::MappingAborted {
            location: "m.ts, line 12, column 4".to_string(),
            message: "message: bad".to_string()
        }
    );
}

#[test]
fn abort_with_file_and_line_only() {
    assert_eq!(
        abort_error(None, Some("a.ts".to_string()), 7, 0),
        HostError::MappingAborted { location: "a.ts, line 7".to_string(), message: "no message".to_string() }
    );
    assert_eq!(
        abort_error(Some(String::new()), Some("a.ts".to_string()), 0, 0),
        HostError::MappingAborted { location: "a.ts".to_string(), message: "message: ".to_string() }
    );
}

#[test]
fn decimal_text() {
    for (n, t) in [(0u32, "0"), (9, "9"), (10, "10"), (305, "305"), (u32::MAX, "4294967295")] {
        let mut s = String::from("x");
        push_decimal(&mut s, n);
        assert_eq!(s, format!("x{}", t));
    }
}

#[test]
fn timeout_fires_at_a_checkpoint() {
    // 10 ms timeout, each gas call taking 1 µs of guest time
    let timeout: u64 = 10_000_000;
    let mut ctx = ready_context(Some(timeout));
    ctx.begin_handler().unwrap();
    let mut elapsed: u64 = 0;
    let mut calls: u64 = 0;
    let err = loop {
        let reading = if ctx.gas_reads_clock() { Some(elapsed) } else { None };
        match ctx.gas(reading) {
            Ok(()) => {}
            Err(e) => break e,
        }
        calls += 1;
        elapsed += 1_000;
        assert!(calls < 1_000_000);
    };
    assert_eq!(err, HostError::HandlerTimeout);
    assert_eq!(calls % CHECKPOINT_INTERVAL, 0);
    assert!(elapsed > timeout);
    assert!(elapsed - timeout <= CHECKPOINT_INTERVAL * 1_000);
    assert_eq!(ctx.checkpoint_count(), calls);
}

#[test]
fn clock_is_read_every_hundredth_call() {
    let mut ctx = ready_context(Some(5));
    assert!(ctx.gas_reads_clock());
    ctx.gas(Some(0)).unwrap();
    for _ in 1..CHECKPOINT_INTERVAL {
        assert!(!ctx.gas_reads_clock());
        ctx.gas(Some(1_000)).unwrap();
    }
    assert!(ctx.gas_reads_clock());
    assert_eq!(ctx.gas(Some(6)), Err(HostError::HandlerTimeout));
    assert_eq!(ctx.checkpoint_count(), CHECKPOINT_INTERVAL);
}

#[test]
fn no_timeout_never_reads_the_clock() {
    let mut ctx = ready_context(None);
    for _ in 0..250 {
        assert!(!ctx.gas_reads_clock());
        ctx.gas(Some(u64::MAX)).unwrap();
    }
}

#[test]
fn store_changes_refused_while_start_runs() {
    let mut ctx = ExecutionContext::new(SemVer::new(0, 0, 1), None);
    assert!(ctx.running_start());
    match ctx.store_set("Token".to_string(), "1".to_string(), vec![1, 2]) {
        Err(HostError::HostImportError { function, .. }) => assert_eq!(function, "store.set"),
        other => panic!("unexpected {:?}", other),
    }
    ctx.begin_start();
    assert!(ctx.running_start());
    match ctx.store_remove("Token".to_string(), "1".to_string()) {
        Err(HostError::HostImportError { function, .. }) => assert_eq!(function, "store.remove"),
        other => panic!("unexpected {:?}", other),
    }
    assert!(ctx.store_get(&"Token".to_string(), &"1".to_string()).is_none());
    ctx.finish_start();
    assert!(!ctx.running_start());
    ctx.begin_handler().unwrap();
    let state = ctx.finish_handler();
    assert!(state.entity_ops.is_empty());
}

#[test]
fn store_operations_accumulate_in_call_order() {
    let mut ctx = ready_context(None);
    ctx.begin_handler().unwrap();
    let ty = "Token".to_string();
    ctx.store_set(ty.clone(), "1".to_string(), vec![1]).unwrap();
    ctx.store_set(ty.clone(), "2".to_string(), vec![2]).unwrap();
    ctx.store_set(ty.clone(), "1".to_string(), vec![3]).unwrap();
    match ctx.store_get(&ty, &"1".to_string()) {
        Some(EntityOp::Update(d)) => assert_eq!(d, &vec![3]),
        other => panic!("unexpected {:?}", other),
    }
    ctx.store_remove(ty.clone(), "2".to_string()).unwrap();
    assert!(matches!(ctx.store_get(&ty, &"2".to_string()), Some(EntityOp::Remove)));
    assert!(ctx.store_get(&"Pair".to_string(), &"1".to_string()).is_none());
    ctx.create_data_source("Factory".to_string());
    let state = ctx.finish_handler();
    assert_eq!(state.entity_ops.len(), 4);
    assert_eq!(state.entity_ops[0].0.entity_id, "1");
    assert_eq!(state.entity_ops[3].0.entity_id, "2");
    assert_eq!(state.created_data_sources, vec!["Factory".to_string()]);
    assert_eq!(ctx.phase(), Phase::Done);
}

#[test]
fn instance_runs_one_handler() {
    let mut ctx = ExecutionContext::new(SemVer::new(0, 0, 1), None);
    assert_eq!(ctx.begin_handler(), Err(InstantiationError::InstanceConsumed));
    ctx.begin_start();
    ctx.finish_start();
    assert_eq!(ctx.begin_handler(), Ok(()));
    assert_eq!(ctx.begin_handler(), Err(InstantiationError::InstanceConsumed));
    ctx.finish_handler();
    assert_eq!(ctx.begin_handler(), Err(InstantiationError::InstanceConsumed));
}

#[test]
fn context_places_bytes_through_its_heap() {
    let mut ctx = ready_context(None);
    assert_eq!(ctx.arena_request(100), Some(10_000));
    assert_eq!(ctx.raw_new(100, Some(64)), Ok(64));
    assert_eq!(ctx.arena_request(100), None);
    assert_eq!(ctx.raw_new(100, None), Ok(164));
}

#[test]
fn handler_failure_names_the_handler() {
    let f = handler_failed("handleTransfer", Trap::Host(HostError::HandlerTimeout));
    assert_eq!(f.handler_name, "handleTransfer");
    assert_eq!(f.underlying, Trap::Host(HostError::HandlerTimeout));
    assert_eq!(ctx_version(), SemVer::new(0, 0, 4));
}

fn ctx_version() -> SemVer {
    ready_context(None).api_version()
}
