use crucible::call_graph::{TraceRecord, TraceValue};
use crucible::trace_events::decode_record;

fn symbol(text: &str) -> TraceValue {
    TraceValue::Symbol(text.to_string())
}

#[test]
fn a_call_event_becomes_a_call_record() {
    let topics = vec![symbol("fn_call"), TraceValue::Other("bytes".to_string()), symbol("transfer")];
    let data = TraceValue::Vec(vec![TraceValue::U32(1), TraceValue::I64(-2)]);
    let record = decode_record(true, topics, Some("CABC".to_string()), data);
    assert_eq!(
        record,
        Some(TraceRecord::Call {
            contract: Some("CABC".to_string()),
            function: "transfer".to_string(),
            args: vec![TraceValue::U32(1), TraceValue::I64(-2)],
        })
    );
}

#[test]
fn call_data_becomes_the_argument_list() {
    let call = |data: TraceValue| {
        decode_record(true, vec![symbol("fn_call"), TraceValue::Void, symbol("f")], None, data)
    };
    let args = |record: Option<TraceRecord>| match record {
        Some(TraceRecord::Call { args, .. }) => args,
        other => panic!("not a call: {other:?}"),
    };
    assert_eq!(args(call(TraceValue::Void)), Vec::<TraceValue>::new());
    assert_eq!(args(call(TraceValue::Bool(true))), vec![TraceValue::Bool(true)]);
    assert_eq!(args(call(TraceValue::EmptyVec)), vec![TraceValue::EmptyVec]);
}

#[test]
fn a_return_event_becomes_a_return_record() {
    let record = decode_record(
        true,
        vec![symbol("fn_return"), symbol("balance")],
        Some("CIGNORED".to_string()),
        TraceValue::I64(42),
    );
    assert_eq!(
        record,
        Some(TraceRecord::Return { function: "balance".to_string(), value: TraceValue::I64(42) })
    );
}

#[test]
fn events_outside_the_stream_decode_to_nothing() {
    let call_topics = || vec![symbol("fn_call"), TraceValue::Void, symbol("f")];
    assert_eq!(decode_record(false, call_topics(), None, TraceValue::Void), None);
    assert_eq!(decode_record(true, vec![], None, TraceValue::Void), None);
    assert_eq!(decode_record(true, vec![symbol("log"), symbol("f")], None, TraceValue::Void), None);
    assert_eq!(decode_record(true, vec![TraceValue::U32(1)], None, TraceValue::Void), None);
    assert_eq!(decode_record(true, vec![symbol("fn_call"), TraceValue::Void], None, TraceValue::Void), None);
    assert_eq!(
        decode_record(true, vec![symbol("fn_call"), TraceValue::Void, TraceValue::InvalidSymbol], None, TraceValue::Void),
        None
    );
    assert_eq!(decode_record(true, vec![symbol("fn_return")], None, TraceValue::Void), None);
}
