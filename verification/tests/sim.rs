use crucible::sim::{
    ContractError, IngressLock, IngressLockValidator, MemoryLimitConfig, MemoryLimitViolation,
    NestedOutcome, ReentrancyProbe, ReentrancyProbeResult, WasmMemoryMonitor,
    DEFAULT_MAX_MEMORY_BYTES, WASM_PAGE_SIZE_BYTES,
};

#[test]
fn ingress_lock_rejects_nested_enter() {
    let mut lock = IngressLock::new();
    assert!(lock.enter().is_ok());
    assert!(lock.is_locked());
    assert_eq!(lock.enter(), Err(ContractError::ReentrancyDetected));
    lock.exit();
    assert!(!lock.is_locked());
    assert!(lock.enter().is_ok());
}

#[test]
fn tracks_peak_pages_under_grow_and_free() {
    let mut mon = WasmMemoryMonitor::new(MemoryLimitConfig {
        max_memory_bytes: 256 * 1024,
        max_stack_depth: 32,
    });

    assert_eq!(mon.grow_pages(2).unwrap(), 0);
    assert_eq!(mon.current_pages(), 2);
    assert_eq!(mon.peak_pages(), 2);

    mon.free_pages(1);
    assert_eq!(mon.current_pages(), 1);
    assert_eq!(mon.peak_pages(), 2, "peak must not decrease on free");

    assert_eq!(mon.grow_pages(2).unwrap(), 1);
    assert_eq!(mon.peak_pages(), 3);
    assert!(mon.assert_within_limits().is_ok());
}

#[test]
fn rejects_allocations_beyond_configured_limit() {
    let mut mon = WasmMemoryMonitor::new(MemoryLimitConfig {
        max_memory_bytes: 128 * 1024,
        max_stack_depth: 8,
    });

    assert!(mon.grow_pages(2).is_ok());
    let err = mon.grow_pages(1).unwrap_err();
    assert!(matches!(
        err,
        MemoryLimitViolation::OutOfMemory { max_pages: 2, .. }
    ));
}

#[test]
fn stack_depth_guard_trips_on_deep_recursion() {
    let mut mon = WasmMemoryMonitor::new(MemoryLimitConfig {
        max_memory_bytes: DEFAULT_MAX_MEMORY_BYTES,
        max_stack_depth: 4,
    });

    for _ in 0..4 {
        mon.push_frame().unwrap();
    }
    let err = mon.push_frame().unwrap_err();
    assert_eq!(
        err,
        MemoryLimitViolation::StackOverflow {
            depth: 5,
            max_depth: 4
        }
    );
    assert_eq!(mon.peak_stack_depth(), 4);
}

#[test]
fn maximal_payload_stays_within_soroban_40mb_ceiling() {
    let mut mon = WasmMemoryMonitor::with_defaults();
    let bytes = 39 * 1024 * 1024;
    mon.allocate_bytes(bytes).unwrap();
    assert!(mon.assert_within_limits().is_ok());
    assert!(mon.peak_memory_bytes() <= DEFAULT_MAX_MEMORY_BYTES);
    assert!(mon.peak_pages() <= MemoryLimitConfig::default().max_pages());
}

#[test]
fn stress_deeply_nested_vector_structures() {
    let mut mon = WasmMemoryMonitor::new(MemoryLimitConfig {
        max_memory_bytes: 8 * 1024 * 1024,
        max_stack_depth: 64,
    });

    mon.stress_nested_vectors(6, 2, 1024, &0u8).unwrap();
    assert!(mon.assert_within_limits().is_ok());
    assert!(mon.peak_stack_depth() >= 6);
    assert!(mon.peak_pages() > 0);
}

#[test]
fn nested_vector_stress_can_hit_stack_limit() {
    let mut mon = WasmMemoryMonitor::new(MemoryLimitConfig {
        max_memory_bytes: DEFAULT_MAX_MEMORY_BYTES,
        max_stack_depth: 5,
    });

    let err = mon.stress_nested_vectors(10, 1, 64, &0u8).unwrap_err();
    assert!(matches!(err, MemoryLimitViolation::StackOverflow { .. }));
}

#[test]
fn allocate_bytes_rounds_up_to_whole_pages() {
    let mut mon = WasmMemoryMonitor::with_defaults();
    mon.allocate_bytes(1).unwrap();
    assert_eq!(mon.current_pages(), 1);
    mon.allocate_bytes(WASM_PAGE_SIZE_BYTES + 1).unwrap();
    assert_eq!(mon.current_pages(), 1 + 2);
}

#[test]
fn a_validator_tracks_locks_per_contract() {
    let mut v = IngressLockValidator::new();
    assert_eq!(v.enter("vault"), Ok(()));
    assert_eq!(v.enter("token"), Ok(()));
    assert_eq!(v.enter("vault"), Err(ContractError::ReentrancyDetected));
    assert!(v.is_locked("vault"));
    v.exit("vault");
    assert!(!v.is_locked("vault"));
    assert!(v.is_locked("token"));
    assert_eq!(v.enter("vault"), Ok(()));
}

#[test]
fn a_refused_nested_call_means_the_callee_is_guarded() {
    let guarded = ReentrancyProbeResult::from_outcome(NestedOutcome::Failed(
        ContractError::ReentrancyDetected,
    ));
    assert!(guarded.is_guarded());
    assert!(guarded.assert_guarded().is_ok());
    let open = ReentrancyProbeResult::from_outcome(NestedOutcome::Returned);
    assert!(!open.is_guarded());
    assert!(open.nested_succeeded());
    assert!(open.assert_guarded().is_err());
}

#[test]
fn a_probe_refuses_reentry_while_its_callee_runs() {
    let mut probe = ReentrancyProbe::new();
    assert_eq!(probe.validator().enter("callee"), Ok(()));
    assert_eq!(
        probe.validator().enter("callee"),
        Err(ContractError::ReentrancyDetected)
    );
}

#[test]
fn freeing_more_than_held_leaves_no_pages() {
    let mut mon = WasmMemoryMonitor::with_defaults();
    mon.grow_pages(3).unwrap();
    mon.free_pages(10);
    assert_eq!(mon.current_pages(), 0);
    assert_eq!(mon.peak_pages(), 3);
}
