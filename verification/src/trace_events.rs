//! Reading the host's invocation stream.
//!
//! The host reports each entry into a contract function as a diagnostic event
//! tagged `fn_call`, with the callee and the function as further topics and the
//! arguments as data, and each normal return as one tagged `fn_return`, with the
//! function as topic and the returned value as data. Any other event is not part
//! of the stream.
use vstd::prelude::*;
use crate::call_graph::{TraceRecord, TraceValue};
use crate::text::same_text;

verus! {

/// The text of a symbol value; `None` for any other value, and for a symbol
/// that is not valid UTF-8.
pub open spec fn symbol_text(v: TraceValue) -> Option<Seq<char>> {
    match v {
        TraceValue::Symbol(s) => Some(s@),
        _ => None,
    }
}

/// The arguments that the data of a `fn_call` event stands for: the elements of
/// a vector, none for void, and the value itself for anything else.
pub open spec fn call_args(data: TraceValue) -> Seq<TraceValue> {
    match data {
        TraceValue::Vec(items) => items@,
        TraceValue::Void => Seq::empty(),
        other => seq![other],
    }
}

/// Whether the first topic is the symbol `tag`.
pub open spec fn tagged(topics: Seq<TraceValue>, tag: Seq<char>) -> bool {
    topics.len() >= 1 && symbol_text(topics[0]) == Some(tag)
}

/// Whether a diagnostic event with these topics is a call record: topics
/// `[fn_call, callee, function]`, the function a symbol.
pub open spec fn decodes_call(is_diagnostic: bool, topics: Seq<TraceValue>) -> bool {
    is_diagnostic && tagged(topics, "fn_call"@) && topics.len() >= 3 && symbol_text(topics[2]) is Some
}

/// Whether a diagnostic event with these topics is a return record: topics
/// `[fn_return, function]`, the function a symbol.
pub open spec fn decodes_return(is_diagnostic: bool, topics: Seq<TraceValue>) -> bool {
    is_diagnostic && tagged(topics, "fn_return"@) && topics.len() >= 2 && symbol_text(topics[1]) is Some
}

/// The text of `v` when it is a valid symbol.
fn symbol_of(v: &TraceValue) -> (r: Option<String>)
    ensures
        r matches Some(s) ==> symbol_text(*v) == Some(s@),
        r is None <==> symbol_text(*v) is None,
{
    match v {
        TraceValue::Symbol(s) => Some(s.clone()),
        _ => None,
    }
}

/// Decodes one host event into a trace record, or `None` when it is not part of
/// the invocation stream.
///
/// `is_diagnostic` says whether the event is a diagnostic one, `topics` are its
/// topics and `data` its data. `contract` is the strkey of the contract whose id
/// the second topic carries, where it carries one: a call record reports it as
/// the callee.
pub fn decode_record(
    is_diagnostic: bool,
    topics: Vec<TraceValue>,
    contract: Option<String>,
    data: TraceValue,
) -> (r: Option<TraceRecord>)
    ensures
        r is None <==> !decodes_call(is_diagnostic, topics@) && !decodes_return(
            is_diagnostic,
            topics@,
        ),
        r matches Some(TraceRecord::Call { contract: c, function, args }) ==> {
            &&& decodes_call(is_diagnostic, topics@)
            &&& c == contract
            &&& symbol_text(topics@[2]) == Some(function@)
            &&& args@ == call_args(data)
        },
        r matches Some(TraceRecord::Return { function, value }) ==> {
            &&& decodes_return(is_diagnostic, topics@)
            &&& symbol_text(topics@[1]) == Some(function@)
            &&& value == data
        },
{
    if !is_diagnostic || topics.len() == 0 {
        return None;
    }
    let tag = match symbol_of(&topics[0]) {
        Some(t) => t,
        None => return None,
    };
    if same_text(tag.as_str(), "fn_call") {
        proof {
            reveal_strlit("fn_call");
            reveal_strlit("fn_return");
            assert("fn_call"@.len() != "fn_return"@.len());
            assert(!tagged(topics@, "fn_return"@));
        }
        if topics.len() < 3 {
            return None;
        }
        let function = match symbol_of(&topics[2]) {
            Some(f) => f,
            None => return None,
        };
        let args = match data {
            TraceValue::Vec(items) => items,
            TraceValue::Void => Vec::new(),
            other => vec![other],
        };
        Some(TraceRecord::Call { contract, function, args })
    } else if same_text(tag.as_str(), "fn_return") {
        if topics.len() < 2 {
            return None;
        }
        let function = match symbol_of(&topics[1]) {
            Some(f) => f,
            None => return None,
        };
        Some(TraceRecord::Return { function, value: data })
    } else {
        None
    }
}

} // verus!
