use crucible::call_graph::{build_trace, TraceRecord, TraceValue};

fn call(contract: &str, function: &str, args: Vec<TraceValue>) -> TraceRecord {
    TraceRecord::Call {
        contract: Some(contract.to_string()),
        function: function.to_string(),
        args,
    }
}

fn ret(function: &str, value: TraceValue) -> TraceRecord {
    TraceRecord::Return {
        function: function.to_string(),
        value,
    }
}

fn swap_records() -> Vec<TraceRecord> {
    vec![
        call("CROUTER", "swap", vec![TraceValue::U64(250)]),
        call("CPOOL", "draw", vec![TraceValue::U64(250)]),
        call("CLEDGER", "record", vec![TraceValue::U64(250)]),
        ret("record", TraceValue::U64(250)),
        ret("draw", TraceValue::U64(250)),
        ret("swap", TraceValue::U64(250)),
    ]
}

#[test]
fn trace_records_the_full_invocation_tree() {
    let trace = build_trace(swap_records(), 300, 30);
    assert_eq!(trace.frame_count(), 3);
    assert_eq!(trace.max_depth(), 2);
    let root = trace.root().expect("one root");
    assert_eq!(root.function, "swap");
    assert_eq!(root.contract.as_deref(), Some("CROUTER"));
    assert_eq!(root.depth, 0);
    assert!(!root.panicked());
    let draw = &root.children[0];
    assert_eq!(draw.function, "draw");
    assert_eq!(draw.depth, 1);
    let record = &draw.children[0];
    assert_eq!(record.function, "record");
    assert_eq!(record.depth, 2);
    assert!(record.children.is_empty());
}

#[test]
fn trace_apportions_gas_across_the_tree() {
    let trace = build_trace(swap_records(), 300, 30);
    let root = trace.root().unwrap();
    assert_eq!(root.self_instructions, 100);
    assert_eq!(root.cumulative_instructions, 300);
    assert_eq!(root.children[0].cumulative_instructions, 200);
    assert_eq!(root.self_fee_stroops, 10);
    assert_eq!(root.cumulative_fee_stroops, 30);
    assert!(root.cumulative_instructions <= trace.total_instructions());
}

#[test]
fn a_frame_that_never_returned_is_marked_panicked() {
    let records = vec![
        call("CROUTER", "swap", vec![]),
        call("CPOOL", "draw", vec![]),
    ];
    let trace = build_trace(records, 0, 0);
    let panicked = trace.panicked_frames();
    assert_eq!(panicked.len(), 2);
    assert_eq!(panicked[0].function, "swap");
    assert_eq!(panicked[1].function, "draw");
    assert!(trace.find_by_function("record").is_empty());
}

#[test]
fn trace_of_a_call_free_run_is_empty() {
    let trace = build_trace(vec![], 10, 1);
    assert!(trace.is_empty());
    assert_eq!(trace.frame_count(), 0);
    assert_eq!(trace.max_depth(), 0);
    assert!(trace.root().is_none());
}

#[test]
fn assert_called_names_the_missing_function() {
    let trace = build_trace(swap_records(), 300, 30);
    assert!(trace.assert_called("swap").is_ok());
    assert!(trace.assert_called("record").is_ok());
    let err = trace.assert_called("liquidate").unwrap_err();
    assert!(err.starts_with("no frame for function 'liquidate'"), "{err}");
    assert!(trace.assert_call_count("draw", 1).is_ok());
    assert!(trace.assert_call_count("draw", 2).is_err());
}

#[test]
fn the_tree_renders_one_line_per_frame() {
    let trace = build_trace(swap_records(), 300, 30);
    assert_eq!(
        trace.to_tree_string(),
        "CROUTER::swap(1 args) -> ok [self 100 insns, 10 stroops]\n  CPOOL::draw(1 args) -> ok [self 100 insns, 10 stroops]\n    CLEDGER::record(1 args) -> ok [self 100 insns, 10 stroops]\n"
    );
}

#[test]
fn the_json_document_holds_the_totals() {
    let trace = build_trace(swap_records(), 300, 30);
    let json = trace.to_json();
    assert!(json.contains("\"total_instructions\":300"), "{json}");
    assert!(json.contains("\"frame_count\":3"), "{json}");
    let pretty = trace.to_json_pretty();
    assert!(pretty.contains('\n'));
}
