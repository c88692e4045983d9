//! Matching event topics against a filter.
//!
//! Every event-filtering helper compares topics the same way: structurally, by
//! value. A topic is held as a plain value: void, a symbol, or any other value in
//! its canonical encoding, where equal values encode to equal bytes. A filter
//! segment that is void, or the symbol `*` or `_`, matches any topic.
use vstd::prelude::*;
use crate::text::chars_of;

verus! {

/// One event topic, or one segment of a topic filter.
#[derive(Debug, Clone)]
pub enum Topic {
    /// The void value.
    Void,
    /// A symbol, by its text.
    Symbol(String),
    /// Any other value, by its canonical encoding.
    Value(Vec<u8>),
}

/// Two topics are the same value.
pub open spec fn same_topic(a: Topic, b: Topic) -> bool {
    match (a, b) {
        (Topic::Void, Topic::Void) => true,
        (Topic::Symbol(x), Topic::Symbol(y)) => x@ == y@,
        (Topic::Value(x), Topic::Value(y)) => x@ == y@,
        _ => false,
    }
}

/// A filter segment that matches any topic: void, `*` or `_`.
pub open spec fn is_wildcard(t: Topic) -> bool {
    match t {
        Topic::Void => true,
        Topic::Symbol(s) => s@ == seq!['*'] || s@ == seq!['_'],
        Topic::Value(_) => false,
    }
}

/// A filter segment matches a topic when it is a wildcard or the same value.
pub open spec fn segment_matches(filter: Topic, topic: Topic) -> bool {
    is_wildcard(filter) || same_topic(filter, topic)
}

/// An event's topics match a filter when the event has at least as many
/// topics and each filter segment matches the topic at its position.
pub open spec fn topics_match_spec(filter: Seq<Topic>, topics: Seq<Topic>) -> bool {
    &&& filter.len() <= topics.len()
    &&& forall|i: int| 0 <= i < filter.len() ==> #[trigger] segment_matches(filter[i], topics[i])
}

fn single_char_is(s: &String, c: char) -> (r: bool)
    ensures
        r == (s@ == seq![c]),
{
    let cs = chars_of(s.as_str());
    if cs.len() == 1 && cs[0] == c {
        proof {
            assert(s@ =~= seq![c]);
        }
        true
    } else {
        false
    }
}

pub(crate) fn bytes_eq(a: &Vec<u8>, b: &Vec<u8>) -> (r: bool)
    ensures
        r == (a@ == b@),
{
    if a.len() != b.len() {
        return false;
    }
    let mut i: usize = 0;
    while i < a.len()
        invariant
            a@.len() == b@.len(),
            i <= a@.len(),
            forall|k: int| 0 <= k < i ==> a@[k] == b@[k],
        decreases a@.len() - i,
    {
        if a[i] != b[i] {
            return false;
        }
        i = i + 1;
    }
    proof {
        assert(a@ =~= b@);
    }
    true
}

/// Whether a filter segment matches any topic.
pub fn is_wildcard_topic(filter_topic: &Topic) -> (r: bool)
    ensures
        r == is_wildcard(*filter_topic),
{
    match filter_topic {
        Topic::Void => true,
        Topic::Symbol(s) => single_char_is(s, '*') || single_char_is(s, '_'),
        Topic::Value(_) => false,
    }
}

/// Whether two topics are the same value.
pub fn topics_equal(a: &Topic, b: &Topic) -> (r: bool)
    ensures
        r == same_topic(*a, *b),
{
    match (a, b) {
        (Topic::Void, Topic::Void) => true,
        (Topic::Symbol(x), Topic::Symbol(y)) => *x == *y,
        (Topic::Value(x), Topic::Value(y)) => bytes_eq(x, y),
        _ => false,
    }
}

/// Whether a filter segment matches an event topic.
pub fn topic_segment_matches(filter_topic: &Topic, event_topic: &Topic) -> (r: bool)
    ensures
        r == segment_matches(*filter_topic, *event_topic),
{
    if is_wildcard_topic(filter_topic) {
        true
    } else {
        topics_equal(filter_topic, event_topic)
    }
}

/// Whether an event's topics match a filter, segment by segment.
pub fn topics_match(filter_topics: &[Topic], event_topics: &[Topic]) -> (r: bool)
    ensures
        r == topics_match_spec(filter_topics@, event_topics@),
{
    if event_topics.len() < filter_topics.len() {
        return false;
    }
    let mut i: usize = 0;
    while i < filter_topics.len()
        invariant
            filter_topics@.len() <= event_topics@.len(),
            i <= filter_topics@.len(),
            forall|k: int|
                0 <= k < i ==> #[trigger] segment_matches(filter_topics@[k], event_topics@[k]),
        decreases filter_topics@.len() - i,
    {
        if !topic_segment_matches(&filter_topics[i], &event_topics[i]) {
            return false;
        }
        i = i + 1;
    }
    true
}

/// A filter made only of wildcards matches every event with at least as many
/// topics.
pub proof fn lemma_wildcards_match_everything(filter: Seq<Topic>, topics: Seq<Topic>)
    requires
        forall|i: int| 0 <= i < filter.len() ==> #[trigger] is_wildcard(filter[i]),
        filter.len() <= topics.len(),
    ensures
        topics_match_spec(filter, topics),
{
    assert forall|i: int| 0 <= i < filter.len() implies #[trigger] segment_matches(
        filter[i],
        topics[i],
    ) by {
        assert(is_wildcard(filter[i]));
    }
}

/// An event's own topics, used as a filter, match it.
pub proof fn lemma_topics_match_themselves(topics: Seq<Topic>)
    ensures
        topics_match_spec(topics, topics),
{
    assert forall|i: int| 0 <= i < topics.len() implies #[trigger] segment_matches(
        topics[i],
        topics[i],
    ) by {
        match topics[i] {
            Topic::Void => {},
            Topic::Symbol(s) => {},
            Topic::Value(v) => {},
        }
    }
}

/// An event matches a filter exactly when it has at least as many topics and,
/// at every position the filter covers, the filter's segment is void, `*`,
/// `_`, or the same value as the event's topic. In particular, a segment that
/// is not a wildcard and differs from the event's topic at its position, at
/// whatever position, makes the event fail the filter.
pub proof fn lemma_topics_match_positionwise(filter: Seq<Topic>, topics: Seq<Topic>)
    ensures
        topics_match_spec(filter, topics) <==> (filter.len() <= topics.len() && forall|i: int|
            0 <= i < filter.len() ==> (#[trigger] is_wildcard(filter[i]) || same_topic(
                filter[i],
                topics[i],
            ))),
        forall|i: int|
            0 <= i < filter.len() && i < topics.len() && !is_wildcard(filter[i]) && !(
            #[trigger] same_topic(filter[i], topics[i])) ==> !topics_match_spec(filter, topics),
        filter.len() > topics.len() ==> !topics_match_spec(filter, topics),
{
    assert forall|i: int|
        0 <= i < filter.len() && i < topics.len() && !is_wildcard(filter[i]) && !(
        #[trigger] same_topic(filter[i], topics[i])) implies !topics_match_spec(filter, topics) by {
        assert(!segment_matches(filter[i], topics[i]));
    }
    if filter.len() <= topics.len() && forall|i: int|
        0 <= i < filter.len() ==> (#[trigger] is_wildcard(filter[i]) || same_topic(
            filter[i],
            topics[i],
        )) {
        assert forall|i: int| 0 <= i < filter.len() implies #[trigger] segment_matches(
            filter[i],
            topics[i],
        ) by {
            assert(is_wildcard(filter[i]) || same_topic(filter[i], topics[i]));
        }
    }
    if topics_match_spec(filter, topics) {
        assert forall|i: int| 0 <= i < filter.len() implies (#[trigger] is_wildcard(filter[i])
            || same_topic(filter[i], topics[i])) by {
            assert(segment_matches(filter[i], topics[i]));
        }
    }
}

/// A value segment matches a value topic only when their encodings are equal
/// byte for byte, and a symbol segment other than `*` and `_` only a symbol
/// of the same text.
pub proof fn lemma_segment_values_compare_by_content(filter: Topic, topic: Topic)
    ensures
        match (filter, topic) {
            (Topic::Value(x), Topic::Value(y)) => segment_matches(filter, topic) <==> x@ == y@,
            (Topic::Symbol(x), Topic::Symbol(y)) => (x@ != seq!['*'] && x@ != seq!['_']) ==> (
            segment_matches(filter, topic) <==> x@ == y@),
            (Topic::Value(_), _) => !segment_matches(filter, topic),
            _ => true,
        },
{
}

} // verus!
