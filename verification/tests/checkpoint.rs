use crucible::checkpoint::{entry_kind, stale_keys, CheckpointError, CheckpointId, CheckpointStack, CheckpointStats, EntryKind};

#[test]
fn stats_total_sums_every_durability() {
    let stats = CheckpointStats {
        instance: 1,
        persistent: 2,
        temporary: 3,
        other: 4,
    };
    assert_eq!(stats.total(), 10);
}

#[test]
fn checkpoint_ids_render_readably() {
    let id = CheckpointId { env_id: 0, seq: 7 };
    assert_eq!(id.to_display_string(), "checkpoint#7");
    assert_eq!(id.sequence(), 7);
}

#[test]
fn a_fresh_stack_has_no_checkpoints() {
    assert_eq!(CheckpointStack::<u32>::new(3).depth(), 0);
}

#[test]
fn tally_counts_each_kind() {
    let kinds = [
        EntryKind::Instance,
        EntryKind::Persistent,
        EntryKind::Persistent,
        EntryKind::Temporary,
        EntryKind::Other,
        EntryKind::Other,
        EntryKind::Other,
    ];
    let stats = CheckpointStats::tally(&kinds);
    assert_eq!(stats.instance, 1);
    assert_eq!(stats.persistent, 2);
    assert_eq!(stats.temporary, 1);
    assert_eq!(stats.other, 3);
    assert_eq!(stats.total(), kinds.len());
}

#[test]
fn checkpoint_ids_are_ordered_by_creation() {
    let mut stack = CheckpointStack::new(1);
    let a = stack.capture("a");
    let b = stack.capture("b");
    assert!(a.sequence() < b.sequence());
    assert_eq!(stack.depth(), 2);
    assert_eq!(stack.position_of(a), Ok(0));
    assert_eq!(stack.position_of(b), Ok(1));
}

#[test]
fn rolling_back_keeps_the_target_and_discards_later_checkpoints() {
    let mut stack = CheckpointStack::new(1);
    let outer = stack.capture("outer");
    let inner = stack.capture("inner");
    let p = stack.rollback(outer).unwrap();
    assert_eq!(p, 0);
    assert_eq!(*stack.captured_at(p), "outer");
    assert_eq!(stack.depth(), 1);
    // The same checkpoint can be rolled back to again.
    assert_eq!(stack.rollback(outer), Ok(0));
    // The inner checkpoint is gone.
    let err = stack.rollback(inner).unwrap_err();
    assert_eq!(
        err,
        CheckpointError::Discarded {
            id: inner,
            live: vec![0]
        }
    );
    assert_eq!(
        err.message(),
        "checkpoint#1 is no longer valid: it was discarded by a rollback to an earlier \
         checkpoint, or released. Live checkpoints: [0]."
    );
}

#[test]
fn releasing_drops_the_checkpoint_and_later_ones() {
    let mut stack = CheckpointStack::new(5);
    let a = stack.capture(1u8);
    let b = stack.capture(2u8);
    let c = stack.capture(3u8);
    assert_eq!(stack.release(b), Ok(()));
    assert_eq!(stack.depth(), 1);
    assert!(stack.position_of(c).is_err());
    assert_eq!(stack.position_of(a), Ok(0));
}

#[test]
fn a_foreign_checkpoint_is_refused() {
    let mut mine = CheckpointStack::new(1);
    let mut theirs = CheckpointStack::new(2);
    let _ = mine.capture(());
    let id = theirs.capture(());
    let err = mine.rollback(id).unwrap_err();
    assert_eq!(err, CheckpointError::ForeignEnvironment { id });
    assert_eq!(
        err.message(),
        "checkpoint#0 belongs to a different MockEnv. Checkpoint ids are not transferable \
         between environments, including across `fork()`."
    );
    assert_eq!(mine.depth(), 1);
}

#[test]
fn discarded_message_lists_every_live_sequence() {
    let mut stack = CheckpointStack::new(9);
    let a = stack.capture(());
    let _b = stack.capture(());
    let _c = stack.capture(());
    stack.release(a).unwrap();
    let _d = stack.capture(());
    let _e = stack.capture(());
    let err = stack.position_of(a).unwrap_err();
    assert_eq!(
        err.message(),
        "checkpoint#0 is no longer valid: it was discarded by a rollback to an earlier \
         checkpoint, or released. Live checkpoints: [3, 4]."
    );
}

#[test]
fn rollback_returns_the_target_position_and_sequences_keep_counting() {
    let mut stack = CheckpointStack::new(4);
    assert_eq!(stack.next_sequence(), 0);
    let _c0 = stack.capture("s0");
    let c1 = stack.capture("s1");
    let _c2 = stack.capture("s2");
    assert_eq!(stack.next_sequence(), 3);
    let p = stack.rollback(c1).unwrap();
    assert_eq!(p, 1);
    assert_eq!(stack.depth(), p + 1);
    assert_eq!(*stack.captured_at(p), "s1");
    let c3 = stack.capture("s3");
    assert_eq!(c3.sequence(), 3);
}

#[test]
fn entry_kinds_follow_the_key() {
    assert_eq!(entry_kind(false, true, true), EntryKind::Other);
    assert_eq!(entry_kind(true, false, true), EntryKind::Temporary);
    assert_eq!(entry_kind(true, true, true), EntryKind::Instance);
    assert_eq!(entry_kind(true, true, false), EntryKind::Persistent);
}

#[test]
fn stale_keys_are_those_the_checkpoint_does_not_hold() {
    let current = vec![vec![1_u8], vec![2, 2], vec![3], vec![]];
    let captured = vec![vec![3_u8], vec![1]];
    assert_eq!(stale_keys(&current, &captured), vec![1, 3]);
    assert_eq!(stale_keys(&current, &current), Vec::<usize>::new());
}
