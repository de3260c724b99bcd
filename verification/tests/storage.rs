use highwater::storage::{check_log_shard_count, check_remote_replay, plan_wal_replay, WalReplayError};

#[test]
fn log_shard_count_must_match_durable_state() {
    assert_eq!(check_log_shard_count(0, 4), Ok(()));
    assert_eq!(check_log_shard_count(4, 4), Ok(()));
    assert_eq!(check_log_shard_count(2, 4), Err(WalReplayError::ShardCountMismatch));
    assert_eq!(check_log_shard_count(0, 0), Err(WalReplayError::NoLogShards));
}

#[test]
fn local_wal_replays_unapplied_records_in_sequence_order() {
    let stored = [(1, 7), (1, 5), (1, 3), (1, 6), (1, 4)];
    assert_eq!(plan_wal_replay(1, 4, &stored), Ok(vec![1, 3, 0]));
    assert_eq!(plan_wal_replay(1, 7, &stored), Ok(vec![]));
    assert_eq!(plan_wal_replay(1, 3, &[(1, 5)]), Err(WalReplayError::MissingSequence(4)));
    assert_eq!(plan_wal_replay(1, 0, &[(1, 2), (0, 1)]), Err(WalReplayError::WrongShard));
    assert_eq!(
        plan_wal_replay(1, 0, &[(1, 1), (1, 2), (1, 2)]),
        Err(WalReplayError::MissingSequence(3))
    );
}

#[test]
fn remote_wal_records_must_match_their_positions() {
    assert_eq!(check_remote_replay(2, 9, &[]), Ok(9));
    assert_eq!(check_remote_replay(2, 9, &[(2, 10, 10), (2, 11, 11)]), Ok(11));
    assert_eq!(check_remote_replay(2, 9, &[(2, 10, 10), (2, 12, 11)]), Err(WalReplayError::RemoteMismatch));
    assert_eq!(check_remote_replay(2, 9, &[(3, 10, 10)]), Err(WalReplayError::RemoteMismatch));
}
