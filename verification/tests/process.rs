use highwater::process::{plan_declaration, DeclarationError, DeclarationPlan};
use highwater::process::{admit_shard_records, batch_ready, RecordAdmission, ShardAdmissionError};
use highwater::ingest::IndexedRecord;
use highwater::process::{admit_outcome, outcome_transition, OutcomeError, OutcomeStatus};
use highwater::process::{lease_recovery, lease_recovery_failure, LeaseRecovery};
use highwater::process::{check_committed_lease, check_completion_lease, check_completion_request, CompletionError, LeaseStamp};
use highwater::process::take_packed;
use highwater::process::{parse_packed_process_records, process_event_id, same_process_identity, PackedBatchError, ProcessIdentity};
use highwater::model::EventTimeGate;
use highwater::process::dispatch_mailbox;
use highwater::process::{
    check_process_settings, check_version_change, fail_execution, process_output_identity, ingress_batch_step, is_contiguous,
    next_shard_sequence, output_change_kinds, process_failure_disposition,
    process_has_pending_work, process_mailbox_is_full, process_transition,
    release_process_execution, select_batch, shard_mailbox_admits, sharded_process_concurrency,
    sharded_retry_concurrency, take_batch_retries, BatchEvent, BatchStep,
    ProcessFailureDisposition, ProcessRequestError, ProcessSettings, ProcessShardState,
    SequenceError, TransitionError, VersionChangeError,
};
use highwater::document::JsonValue;
use highwater::streaming::ChangeKind;

#[test]
fn retries_leave_normal_concurrency_and_respect_budget() {
    let mut state = ProcessShardState {
        running: 1,
        retry_running: 1,
        ..ProcessShardState::default()
    };

    release_process_execution(&mut state, false);
    assert_eq!(state.running, 0);
    assert_eq!(state.retry_running, 1);
    release_process_execution(&mut state, true);
    assert_eq!(state.running, 0);
    assert_eq!(state.retry_running, 0);
    assert_eq!(
        process_failure_disposition(4, 5),
        ProcessFailureDisposition::Retry
    );
    assert_eq!(
        process_failure_disposition(5, 5),
        ProcessFailureDisposition::Quarantine
    );
}

#[test]
fn process_frontier_waits_for_async_work_to_finish() {
    assert!(process_has_pending_work(
        0,
        0,
        &[ProcessShardState {
            pending: 1,
            ..ProcessShardState::default()
        }]
    ));
    assert!(process_has_pending_work(0, 1, &[]));
    assert!(!process_has_pending_work(
        0,
        0,
        &[ProcessShardState {
            completed: 3,
            ..ProcessShardState::default()
        }]
    ));
}

#[test]
fn releasing_an_idle_shard_saturates_at_zero() {
    let mut state = ProcessShardState::default();
    release_process_execution(&mut state, false);
    release_process_execution(&mut state, true);
    assert_eq!(state, ProcessShardState::new());
}

#[test]
fn concurrency_is_spread_over_shards_rounding_up() {
    assert_eq!(sharded_process_concurrency(64, 3), 22);
    assert_eq!(sharded_process_concurrency(64, 4), 16);
    assert_eq!(sharded_process_concurrency(1, 8), 1);
    assert_eq!(sharded_retry_concurrency(0, 4), 1);
    assert_eq!(sharded_retry_concurrency(5, 0), 5);
}

#[test]
fn mailbox_fills_at_capacity() {
    assert!(!process_mailbox_is_full(3, 3, 3, 10));
    assert!(process_mailbox_is_full(4, 3, 3, 10));
    let state = ProcessShardState {
        pending: 2,
        running: 1,
        retry_pending: 1,
        retry_running: 0,
        ..ProcessShardState::default()
    };
    // 10 events over 3 shards: 4 per shard, and this shard holds 4.
    assert!(shard_mailbox_admits(&state, 0, 10, 3));
    assert!(!shard_mailbox_admits(&state, 1, 10, 3));
    // 9 events over 3 shards: 3 per shard.
    assert!(!shard_mailbox_admits(&state, 0, 9, 3));
    assert!(shard_mailbox_admits(&state, 1, 15, 3));
}

fn settings() -> ProcessSettings {
    ProcessSettings {
        process_id: "orders".to_owned(),
        stream: "input".to_owned(),
        workflow_type: "Handler".to_owned(),
        task_queue: "default".to_owned(),
        build_id: "b1".to_owned(),
        state_version: 1,
        max_concurrent_keys: 64,
        mailbox_capacity: 10_000,
        retry_concurrency: 4,
        max_attempts: 3,
        batch_max_size: 64,
        versioned_streams: vec!["accounts".to_owned()],
    }
}

#[test]
fn process_declarations_are_validated() {
    assert_eq!(check_process_settings(&settings(), true), Ok(()));
    let mut blank = settings();
    blank.build_id = "  ".to_owned();
    assert_eq!(
        check_process_settings(&blank, true),
        Err(ProcessRequestError::EmptyIdentifier)
    );
    assert_eq!(
        check_process_settings(&settings(), false),
        Err(ProcessRequestError::InvalidSettings)
    );
    let mut large = settings();
    large.batch_max_size = 16_385;
    assert_eq!(
        check_process_settings(&large, true),
        Err(ProcessRequestError::InvalidSettings)
    );
    let mut repeated = settings();
    repeated.versioned_streams = vec!["a".to_owned(), "a".to_owned()];
    assert_eq!(
        check_process_settings(&repeated, true),
        Err(ProcessRequestError::InvalidSettings)
    );
}

#[test]
fn state_versions_move_up_only_through_declared_migrations() {
    assert_eq!(check_version_change(2, 2, &[]), Ok(()));
    assert_eq!(
        check_version_change(3, 2, &[2]),
        Err(VersionChangeError::Downgrade)
    );
    assert_eq!(check_version_change(1, 3, &[2, 1]), Ok(()));
    assert_eq!(
        check_version_change(1, 3, &[1]),
        Err(VersionChangeError::MissingMigration)
    );
}

fn object(members: Vec<(&str, JsonValue)>) -> JsonValue {
    JsonValue::Object(
        members
            .into_iter()
            .map(|(name, value)| (name.to_owned(), value))
            .collect(),
    )
}

#[test]
fn handler_results_must_be_marked_transitions() {
    let result = object(vec![
        ("__highwater_transition__", JsonValue::Bool(true)),
        ("state", JsonValue::String("next".to_owned())),
        ("emit", JsonValue::Null),
    ]);
    let (state, output) = process_transition(Some(&result)).unwrap();
    assert!(matches!(state, JsonValue::String(s) if s == "next"));
    assert!(output.is_none());

    let emitting = object(vec![
        ("__highwater_transition__", JsonValue::Bool(true)),
        ("state", JsonValue::Null),
        ("emit", JsonValue::Bool(false)),
    ]);
    let (state, output) = process_transition(Some(&emitting)).unwrap();
    assert!(matches!(state, JsonValue::Null));
    assert!(matches!(output, Some(JsonValue::Bool(false))));

    let unmarked = object(vec![("state", JsonValue::Null)]);
    assert_eq!(
        process_transition(Some(&unmarked)).err(),
        Some(TransitionError::InvalidTransition)
    );
    let stateless = object(vec![("__highwater_transition__", JsonValue::Bool(true))]);
    assert_eq!(
        process_transition(Some(&stateless)).err(),
        Some(TransitionError::MissingState)
    );
    assert_eq!(
        process_transition(None).err(),
        Some(TransitionError::InvalidTransition)
    );
}

#[test]
fn outputs_update_or_insert() {
    assert_eq!(
        output_change_kinds(true),
        vec![ChangeKind::UpdateBefore, ChangeKind::UpdateAfter]
    );
    assert_eq!(output_change_kinds(false), vec![ChangeKind::Insert]);
}

#[test]
fn shard_sequences_carry_the_shard_in_the_top_byte() {
    assert_eq!(next_shard_sequence(1, 0), Ok((1, (1u64 << 56) | 1)));
    assert_eq!(next_shard_sequence(3, 41), Ok((42, (3u64 << 56) | 42)));
    assert_eq!(
        next_shard_sequence(1, (1u64 << 56) - 1),
        Err(SequenceError::Exhausted)
    );
}

#[test]
fn batches_respect_size_and_retry_budget() {
    // Candidates: normal, retry, retry, normal, retry.
    let retries = [false, true, true, false, true];
    assert_eq!(select_batch(&retries, 10, 1), vec![0, 1, 3]);
    assert_eq!(select_batch(&retries, 2, 5), vec![0, 1]);
    assert_eq!(select_batch(&retries, 10, 0), vec![0, 3]);
    assert!(select_batch(&[], 4, 4).is_empty());
    assert!(is_contiguous(&[3, 4, 5]));
    assert!(!is_contiguous(&[3, 5]));
    assert!(is_contiguous(&[]));
}

#[test]
fn batch_retries_move_to_the_retry_budget() {
    let mut state = ProcessShardState {
        running: 2,
        retry_pending: 3,
        retry_running: 1,
        ..ProcessShardState::default()
    };
    take_batch_retries(&mut state, 2, 1);
    assert_eq!(state.running, 1);
    assert_eq!(state.retry_pending, 1);
    assert_eq!(state.retry_running, 3);
}

#[test]
fn ingress_batches_commit_at_ten_thousand_records() {
    assert_eq!(ingress_batch_step(10, BatchEvent::Ingress(5)), BatchStep::Collect(15));
    assert_eq!(
        ingress_batch_step(9_990, BatchEvent::Ingress(10)),
        BatchStep::Commit { defer: false }
    );
    assert_eq!(
        ingress_batch_step(10, BatchEvent::OtherCommand),
        BatchStep::Commit { defer: true }
    );
    assert_eq!(
        ingress_batch_step(10, BatchEvent::Deadline),
        BatchStep::Commit { defer: false }
    );
}

#[test]
fn output_messages_are_named_by_their_input() {
    assert_eq!(
        process_output_identity("Balance", 42),
        ("process:Balance".to_owned(), "process:Balance:42".to_owned())
    );
    assert_ne!(process_output_identity("p", 1).1, process_output_identity("p", 11).1);
}

#[test]
fn failures_retry_until_the_budget_then_quarantine() {
    let mut state = ProcessShardState { running: 1, ..ProcessShardState::default() };
    assert_eq!(
        fail_execution(&mut state, 0, false, 3),
        (1, ProcessFailureDisposition::Retry)
    );
    assert_eq!((state.running, state.retry_pending), (0, 1));
    state.retry_running = 1;
    assert_eq!(
        fail_execution(&mut state, 2, true, 3),
        (3, ProcessFailureDisposition::Quarantine)
    );
    assert_eq!((state.retry_running, state.failed, state.quarantined), (0, 1, 1));
}

#[test]
fn dispatch_starts_one_execution_per_free_key_up_to_the_limit() {
    let keys: Vec<String> = ["a", "b", "a", "c", "d"].iter().map(|k| k.to_string()).collect();
    let busy = [false, true, false, false, false];
    let eligible = [true; 5];
    assert_eq!(dispatch_mailbox(&keys, &busy, &eligible, 0, 2), (vec![0, 3], 2));
    assert_eq!(dispatch_mailbox(&keys, &busy, &eligible, 0, 10), (vec![0, 3, 4], 3));
    assert_eq!(dispatch_mailbox(&keys, &busy, &eligible, 5, 5), (vec![], 5));
    let waiting = [false, true, true, true, true];
    assert_eq!(dispatch_mailbox(&keys, &busy, &waiting, 1, 10), (vec![3, 4], 3));
}

fn packed_record(out: &mut Vec<u8>, time: f64, key: &[u8], value: &[u8], id: [u8; 16]) {
    out.extend_from_slice(&time.to_le_bytes());
    out.extend_from_slice(&(key.len() as u32).to_le_bytes());
    out.extend_from_slice(&(value.len() as u32).to_le_bytes());
    out.extend_from_slice(&id);
    out.extend_from_slice(key);
    out.extend_from_slice(value);
}

fn packed(records: &[(f64, &[u8], &[u8])]) -> Vec<u8> {
    let mut out = b"TCP1".to_vec();
    out.extend_from_slice(&(records.len() as u32).to_le_bytes());
    for (index, (time, key, value)) in records.iter().enumerate() {
        let mut id = [0u8; 16];
        id[15] = index as u8 + 1;
        id[0] = 0xab;
        packed_record(&mut out, *time, key, value, id);
    }
    out
}

#[test]
fn packed_batches_decode_every_record() {
    let body = packed(&[(1.5, b"k1", br#"{"a":1}"#), (-2.0, b"k2", b"[true]")]);
    let records = parse_packed_process_records(&body).unwrap();
    assert_eq!(records.len(), 2);
    assert_eq!(records[0].event_time_bits, 1.5f64.to_bits());
    assert_eq!(records[0].key, "k1");
    assert_eq!(records[0].event_id, "ab000000-0000-0000-0000-000000000001");
    assert_eq!(records[0].value_json, br#"{"a":1}"#.to_vec());
    assert_eq!(records[1].event_time_bits, (-2.0f64).to_bits());
    assert_eq!(records[1].key, "k2");
    assert_eq!(records[1].event_id, "ab000000-0000-0000-0000-000000000002");
}

#[test]
fn packed_batches_refuse_malformed_bodies() {
    let err = |body: &[u8]| parse_packed_process_records(body).err();
    assert_eq!(err(b"TCP1"), Some(PackedBatchError::InvalidHeader));
    assert_eq!(err(b"XCP1\x01\0\0\0"), Some(PackedBatchError::InvalidHeader));
    assert_eq!(err(&packed(&[])), Some(PackedBatchError::InvalidCount));
    let mut huge = b"TCP1".to_vec();
    huge.extend_from_slice(&100_001u32.to_le_bytes());
    assert_eq!(err(&huge), Some(PackedBatchError::InvalidCount));
    let good = packed(&[(1.0, b"k", b"1")]);
    assert_eq!(err(&good[..20]), Some(PackedBatchError::Truncated));
    assert_eq!(err(&good[..good.len() - 2]), Some(PackedBatchError::KeyTruncated));
    assert_eq!(err(&good[..good.len() - 1]), Some(PackedBatchError::ValueTruncated));
    assert_eq!(err(&packed(&[(1.0, b"\xff", b"1")])), Some(PackedBatchError::InvalidKey));
    assert_eq!(err(&packed(&[(1.0, b"k", b"{")])), Some(PackedBatchError::InvalidValue));
    let mut trailing = good.clone();
    trailing.push(b' ');
    assert_eq!(err(&trailing), Some(PackedBatchError::TrailingBytes));
}

#[test]
fn process_events_are_identified_by_event_id_or_stream_position() {
    assert_eq!(process_event_id(Some("evt-1"), "orders", 2, 9), "evt-1");
    assert_eq!(process_event_id(None, "orders", 2, 9), "stream:orders:2:9");
}

fn identity(stream: &str, key: Option<&str>) -> ProcessIdentity {
    ProcessIdentity {
        stream: stream.to_owned(),
        workflow_type: "W".to_owned(),
        key_field: key.map(str::to_owned),
        event_time_field: None,
        event_time_gate: EventTimeGate::Immediate,
        direct_ingress: false,
    }
}

#[test]
fn redeclared_processes_keep_their_identity() {
    assert!(same_process_identity(&identity("s", Some("k")), &identity("s", Some("k"))));
    assert!(!same_process_identity(&identity("s", Some("k")), &identity("t", Some("k"))));
    assert!(!same_process_identity(&identity("s", Some("k")), &identity("s", None)));
}

#[test]
fn packed_fields_are_taken_in_order_or_refused_whole() {
    let body = [1u8, 2, 3, 4, 5];
    let mut cursor = 1;
    assert_eq!(take_packed(&body, &mut cursor, 3), Ok(vec![2, 3, 4]));
    assert_eq!(cursor, 4);
    assert_eq!(take_packed(&body, &mut cursor, 2), Err(PackedBatchError::Truncated));
    assert_eq!(cursor, 4);
    assert_eq!(take_packed(&body, &mut cursor, 1), Ok(vec![5]));
}

#[test]
fn completions_are_checked_before_routing() {
    assert_eq!(check_completion_request(1, 1, 2, 4), Ok(()));
    assert_eq!(check_completion_request(0, 1, 2, 4), Err(CompletionError::BatchSize));
    assert_eq!(check_completion_request(16_385, 1, 2, 4), Err(CompletionError::BatchSize));
    assert_eq!(check_completion_request(3, 2, 2, 4), Err(CompletionError::UnsupportedProtocol));
    assert_eq!(check_completion_request(3, 1, 0, 4), Err(CompletionError::PartitionOutOfRange));
    assert_eq!(check_completion_request(3, 1, 5, 4), Err(CompletionError::PartitionOutOfRange));
}

#[test]
fn completions_must_answer_their_lease_exactly() {
    let lease = LeaseStamp { shard: 2, owner_epoch: 7, activation_sequence: 40, executions: 3 };
    assert_eq!(check_completion_lease(Some(lease), 2, 2, 7, 40, 3), Ok(()));
    assert_eq!(check_completion_lease(None, 2, 2, 7, 40, 3), Err(CompletionError::LeaseLost));
    assert_eq!(check_completion_lease(Some(lease), 1, 2, 7, 40, 3), Err(CompletionError::LeaseLost));
    assert_eq!(check_completion_lease(Some(lease), 2, 2, 7, 40, 2), Err(CompletionError::IncompleteBatch));
    assert_eq!(check_completion_lease(Some(lease), 2, 2, 6, 40, 3), Err(CompletionError::LeaseLost));
    assert_eq!(check_completion_lease(Some(lease), 2, 2, 7, 41, 3), Err(CompletionError::LeaseLost));
}

#[test]
fn completions_from_an_earlier_generation_cannot_commit() {
    let lease = LeaseStamp { shard: 2, owner_epoch: 7, activation_sequence: 40, executions: 3 };
    assert_eq!(check_committed_lease(Some(lease), true, 2, 7, 7, 40, 3), Ok(()));
    assert_eq!(check_committed_lease(Some(lease), true, 2, 8, 7, 40, 3), Err(CompletionError::LeaseLost));
    assert_eq!(check_committed_lease(Some(lease), false, 2, 7, 7, 40, 3), Err(CompletionError::LeaseLost));
    assert_eq!(check_committed_lease(None, true, 2, 7, 7, 40, 3), Err(CompletionError::LeaseLost));
}

#[test]
fn expired_or_orphaned_leases_are_recovered() {
    assert_eq!(lease_recovery(false, false, Some(3), 3), None);
    assert_eq!(lease_recovery(true, false, Some(3), 3), Some(LeaseRecovery::Expired));
    assert_eq!(lease_recovery(false, false, Some(4), 3), None);
    assert_eq!(lease_recovery(false, true, Some(4), 3), Some(LeaseRecovery::Orphaned));
    assert_eq!(lease_recovery(false, true, None, 3), Some(LeaseRecovery::Orphaned));
    assert_eq!(lease_recovery(true, false, Some(4), 3), Some(LeaseRecovery::Orphaned));
    assert_eq!(
        lease_recovery_failure(LeaseRecovery::Expired),
        "activation lease expired before completion"
    );
    assert_eq!(
        lease_recovery_failure(LeaseRecovery::Orphaned),
        "activation lost when its partition owner was fenced"
    );
}

#[test]
fn event_ids_name_one_event_and_terminal_outcomes_stay() {
    assert_eq!(admit_outcome(None, 5), Ok(true));
    assert_eq!(admit_outcome(Some(5), 5), Ok(false));
    assert_eq!(admit_outcome(Some(4), 5), Err(OutcomeError::EventIdReused));
    assert_eq!(outcome_transition(OutcomeStatus::Pending, OutcomeStatus::Committed), Ok(OutcomeStatus::Committed));
    assert_eq!(outcome_transition(OutcomeStatus::Committed, OutcomeStatus::Committed), Ok(OutcomeStatus::Committed));
    assert_eq!(
        outcome_transition(OutcomeStatus::Committed, OutcomeStatus::Failed),
        Err(OutcomeError::AlreadyTerminal(OutcomeStatus::Committed))
    );
    assert_eq!(
        outcome_transition(OutcomeStatus::Failed, OutcomeStatus::Pending),
        Err(OutcomeError::AlreadyTerminal(OutcomeStatus::Failed))
    );
}

#[test]
fn batches_run_when_full_or_when_the_oldest_has_waited() {
    assert!(!batch_ready(0, 4, true));
    assert!(!batch_ready(3, 4, false));
    assert!(batch_ready(3, 4, true));
    assert!(batch_ready(4, 4, false));
    assert!(batch_ready(1, 0, false));
    assert!(!batch_ready(10_000, 30_000, false));
    assert!(batch_ready(16_384, 30_000, false));
}

fn indexed(key: &str, value: &str) -> IndexedRecord {
    IndexedRecord {
        partition: 0,
        event_time_bits: 1.0f64.to_bits(),
        key: Some(key.to_owned()),
        value_json: value.as_bytes().to_vec(),
        kind: ChangeKind::Upsert,
    }
}

fn strings(values: &[&str]) -> Vec<String> {
    values.iter().map(|v| v.to_string()).collect()
}

#[test]
fn direct_ingress_admits_each_new_event_once() {
    let state = ProcessShardState::new();
    let dedup = strings(&["e1", "e2", "e1", "e3", "e4"]);
    let keys = strings(&["a", "a", "a", "b", "c"]);
    let contents = vec![indexed("a", "1"), indexed("a", "2"), indexed("a", "1"), indexed("b", "3"), indexed("c", "4")];
    let stored = vec![None, None, None, Some(indexed("b", "3")), None];
    let active = [false, false, false, false, true];
    let admission = admit_shard_records(&state, &dedup, &keys, &contents, &stored, &active, 8, 100, 1).unwrap();
    assert_eq!(
        admission.dispositions,
        vec![
            RecordAdmission::Start,
            RecordAdmission::Queue,
            RecordAdmission::Duplicate,
            RecordAdmission::Duplicate,
            RecordAdmission::Queue,
        ]
    );
    assert_eq!((admission.accepted, admission.duplicates), (3, 2));
    let full = admit_shard_records(&state, &dedup, &keys, &contents, &stored, &active, 8, 2, 1);
    assert!(matches!(full, Err(ShardAdmissionError::MailboxFull)));
    let fits = admit_shard_records(&state, &dedup, &keys, &contents, &stored, &active, 8, 6, 2);
    assert!(fits.is_ok());
    let reused = vec![indexed("a", "1"), indexed("a", "2"), indexed("a", "9"), indexed("b", "3"), indexed("c", "4")];
    let refused = admit_shard_records(&state, &dedup, &keys, &reused, &stored, &active, 8, 100, 1);
    assert!(matches!(refused, Err(ShardAdmissionError::EventIdReused)));
    let limited = admit_shard_records(&state, &dedup, &keys, &contents, &stored, &[false; 5], 1, 100, 1).unwrap();
    assert_eq!(limited.dispositions[4], RecordAdmission::Queue);
}

#[test]
fn declarations_backfill_new_processes_and_update_matching_ones() {
    let requested = identity("orders", Some("id"));
    let backlog = vec![Some("a".to_owned()), Some("b".to_owned())];
    match plan_declaration(None, &requested, 1, &[], false, &backlog, 2) {
        Ok(DeclarationPlan::Create { backfill_keys, subscribe }) => {
            assert_eq!(backfill_keys, vec!["a".to_owned(), "b".to_owned()]);
            assert!(subscribe);
        }
        _ => panic!("a first declaration creates the process"),
    }
    assert!(matches!(
        plan_declaration(None, &requested, 1, &[], false, &backlog, 1),
        Err(DeclarationError::BackfillExceedsCapacity)
    ));
    let unkeyed = vec![Some("a".to_owned()), Some(String::new())];
    assert!(matches!(
        plan_declaration(None, &requested, 1, &[], false, &unkeyed, 5),
        Err(DeclarationError::MissingKey)
    ));
    let mut direct = identity("orders", Some("id"));
    direct.direct_ingress = true;
    match plan_declaration(None, &direct, 1, &[], false, &unkeyed, 1) {
        Ok(DeclarationPlan::Create { backfill_keys, subscribe }) => {
            assert!(backfill_keys.is_empty());
            assert!(!subscribe);
        }
        _ => panic!("direct ingress starts with an empty mailbox"),
    }
    let stored = identity("orders", Some("id"));
    assert!(matches!(
        plan_declaration(Some((&stored, 1)), &requested, 3, &[1, 2], false, &backlog, 0),
        Ok(DeclarationPlan::Update)
    ));
    assert!(matches!(
        plan_declaration(Some((&stored, 2)), &requested, 1, &[], false, &backlog, 0),
        Err(DeclarationError::Version(VersionChangeError::Downgrade))
    ));
    assert!(matches!(
        plan_declaration(Some((&stored, 1)), &requested, 3, &[1], false, &backlog, 0),
        Err(DeclarationError::Version(VersionChangeError::MissingMigration))
    ));
    assert!(matches!(
        plan_declaration(Some((&stored, 1)), &requested, 1, &[], true, &backlog, 0),
        Err(DeclarationError::EdgeCycle)
    ));
    let moved = identity("payments", Some("id"));
    assert!(matches!(
        plan_declaration(Some((&moved, 1)), &requested, 1, &[], false, &backlog, 0),
        Err(DeclarationError::IdentityChanged)
    ));
}
