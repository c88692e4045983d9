use crucible::event_topic_match::{is_wildcard_topic, topic_segment_matches, topics_match, Topic};

fn sym(s: &str) -> Topic {
    Topic::Symbol(s.to_string())
}

#[test]
fn void_star_and_underscore_are_wildcards() {
    assert!(is_wildcard_topic(&Topic::Void));
    assert!(is_wildcard_topic(&sym("*")));
    assert!(is_wildcard_topic(&sym("_")));
    assert!(!is_wildcard_topic(&sym("**")));
    assert!(!is_wildcard_topic(&Topic::Value(vec![0])));
}

#[test]
fn a_segment_matches_by_value() {
    assert!(topic_segment_matches(&sym("transfer"), &sym("transfer")));
    assert!(!topic_segment_matches(&sym("transfer"), &sym("mint")));
    assert!(topic_segment_matches(
        &Topic::Value(vec![1, 2]),
        &Topic::Value(vec![1, 2])
    ));
    assert!(!topic_segment_matches(
        &Topic::Value(vec![1, 2]),
        &Topic::Value(vec![1, 3])
    ));
    assert!(!topic_segment_matches(&sym("a"), &Topic::Value(vec![])));
    assert!(topic_segment_matches(&sym("*"), &Topic::Value(vec![9])));
}

#[test]
fn a_filter_matches_a_prefix_of_the_topics() {
    let event = vec![sym("transfer"), Topic::Value(vec![1]), Topic::Value(vec![2])];
    assert!(topics_match(&[sym("transfer")], &event));
    assert!(topics_match(&[sym("_"), Topic::Value(vec![1])], &event));
    assert!(topics_match(&[], &event));
    assert!(!topics_match(&[sym("mint")], &event));
    assert!(!topics_match(
        &[sym("*"), sym("*"), sym("*"), sym("*")],
        &event
    ));
    assert!(topics_match(&event, &event));
}
