use highwater::keyspace;
use highwater::keyspace::process_workflow_id;
use highwater::keyspace::{
    activity_key, archive_key, checkpoint_barrier_key, deduplicate_buffer_key, deduplicate_key,
    deduplicate_output_key, deduplicate_state_key, encoded, event_prefix, interval_join_key,
    interval_join_output_key, interval_join_side_key, key_group_key, late_record_key,
    operator_change_prefix, operator_edge_key, operator_edge_pending_prefix, ordered_f64_bits,
    outbox_key, process_active_key, process_batch_lease_key, process_batch_lease_prefix,
    process_execution_key, process_key, process_output_key, process_partition_owner_key,
    process_ready_key, process_shard_execution_key, process_shard_execution_prefix,
    process_shard_state_key, process_state_key, process_stream_key, source_cursor_key,
    source_lease_key, stream_batch_key, stream_config_key, stream_event_id_key,
    stream_filter_key, stream_filter_output_key, stream_partition_key, stream_schedule_key,
    stream_state_key, temporal_join_key, temporal_join_output_key, temporal_join_probe_key,
    temporal_join_version_key, timer_key, watermark_timer_key, window_accumulator_key,
    window_value_key, workflow_child_key, workflow_deadline_key, workflow_task_key,
    workflow_task_token_key,
};

fn e(text: &str) -> String {
    encoded(text)
}

#[test]
fn workflow_keys_follow_their_layouts() {
    assert_eq!(workflow_task_key("w"), format!("workflow-task/{}", e("w")));
    assert_eq!(workflow_task_token_key("t/1"), "workflow-task-token/t/1");
    assert_eq!(workflow_deadline_key("w"), format!("workflow-deadline/{}", e("w")));
    assert_eq!(workflow_child_key("p", "c"), format!("workflow-child/{}/{}", e("p"), e("c")));
    assert_eq!(event_prefix("w"), format!("event/{}/", e("w")));
    assert_eq!(activity_key(42), format!("activity/{:020}", 42));
    assert_eq!(timer_key("w", 7), format!("timer/{}/{:020}", e("w"), 7));
    assert_eq!(archive_key("w", 2), format!("archive/{}/{:020}", e("w"), 2));
}

#[test]
fn stream_keys_follow_their_layouts() {
    assert_eq!(stream_config_key("s"), format!("stream/{}/config", e("s")));
    assert_eq!(stream_state_key("s"), format!("stream/{}/state", e("s")));
    assert_eq!(stream_partition_key("s", 3), format!("stream/{}/partition/{:010}", e("s"), 3));
    assert_eq!(stream_batch_key("s", 99), format!("stream-batch/{}/{:020}", e("s"), 99));
    assert_eq!(late_record_key("s", 5), format!("late-record/{}/{:020}", e("s"), 5));
    assert_eq!(
        watermark_timer_key("s", "w", 4),
        format!("watermark-timer/{}/{}/{:020}", e("s"), e("w"), 4)
    );
    assert_eq!(stream_schedule_key("d"), format!("stream-schedule/{}", e("d")));
    assert_eq!(stream_event_id_key("s", "ev"), format!("stream-event-id/{}/{}", e("s"), e("ev")));
    assert_eq!(
        source_cursor_key("s", "src", 2),
        format!("source-cursor/{}/{}/{:010}", e("s"), e("src"), 2)
    );
    assert_eq!(source_lease_key("s", 2), format!("source-lease/{}/{:010}", e("s"), 2));
    assert_eq!(key_group_key(12), format!("key-group/{:010}", 12));
    assert_eq!(checkpoint_barrier_key("c"), format!("checkpoint-barrier/{}", e("c")));
    assert_eq!(outbox_key("sink", "m"), format!("outbox/{}/{}", e("sink"), e("m")));
}

#[test]
fn window_keys_sort_by_ordered_float_bits() {
    let start = 12.5f64.to_bits();
    let value = (-3.0f64).to_bits();
    assert_eq!(
        window_accumulator_key("d", start, Some("k")),
        format!("window-accumulator/{}/{:016x}/{}", e("d"), ordered_f64_bits(start), e("k"))
    );
    assert_eq!(
        window_accumulator_key("d", start, None),
        format!("window-accumulator/{}/{:016x}/", e("d"), ordered_f64_bits(start))
    );
    assert_eq!(
        window_value_key("d", start, Some("k"), value),
        format!(
            "window-value/{}/{:016x}/{}/{:016x}",
            e("d"),
            ordered_f64_bits(start),
            e("k"),
            ordered_f64_bits(value)
        )
    );
    assert_eq!(ordered_f64_bits(0.0f64.to_bits()), 0x8000_0000_0000_0000);
    assert!(ordered_f64_bits((-1.0f64).to_bits()) < ordered_f64_bits(1.0f64.to_bits()));
}

#[test]
fn process_keys_follow_their_layouts() {
    assert_eq!(process_key("p"), format!("process/{}", e("p")));
    assert_eq!(process_stream_key("s", "p"), format!("process-stream/{}/{}", e("s"), e("p")));
    assert_eq!(process_shard_state_key("p", 3), format!("process-shard/{}/{:04}", e("p"), 3));
    assert_eq!(process_shard_execution_prefix(), "process-shard-execution/");
    assert_eq!(
        process_shard_execution_key(2, "p", 8),
        format!("process-shard-execution/{:04}/{}/{:020}", 2, e("p"), 8)
    );
    assert_eq!(process_active_key("p", "k"), format!("process-active/{}/{}", e("p"), e("k")));
    assert_eq!(process_execution_key("w"), format!("process-execution/{}", e("w")));
    assert_eq!(process_batch_lease_prefix(), "process-batch-lease/");
    assert_eq!(process_batch_lease_key("t"), format!("process-batch-lease/{}", e("t")));
    assert_eq!(process_partition_owner_key(1), "process-partition-owner/0001");
    assert_eq!(
        process_ready_key(1, "p", 6),
        format!("process-ready/{:04}/{}/{:020}", 1, e("p"), 6)
    );
    assert_eq!(process_state_key("p", "k"), format!("process-state/{}/{}", e("p"), e("k")));
    assert_eq!(process_output_key("p", "k"), format!("process-output/{}/{}", e("p"), e("k")));
}

#[test]
fn operator_keys_follow_their_layouts() {
    assert_eq!(operator_change_prefix("o"), format!("operator-change/{}/", e("o")));
    assert_eq!(operator_edge_key("o"), format!("operator-edge/{}", e("o")));
    assert_eq!(operator_edge_pending_prefix("o"), format!("operator-edge-pending/{}/", e("o")));
    assert_eq!(temporal_join_key("j"), format!("temporal-join/{}", e("j")));
    assert_eq!(
        temporal_join_probe_key("j", "k", 1, 2),
        format!("temporal-join-probe/{}/{}/{:010}/{:020}", e("j"), e("k"), 1, 2)
    );
    let time = 7.25f64.to_bits();
    assert_eq!(
        temporal_join_version_key("j", "k", time, 3),
        format!(
            "temporal-join-version/{}/{}/{:016x}/{:020}",
            e("j"),
            e("k"),
            ordered_f64_bits(time),
            3
        )
    );
    assert_eq!(
        temporal_join_output_key("j", 1, 2),
        format!("temporal-join-output/{}/{:010}/{:020}", e("j"), 1, 2)
    );
    assert_eq!(interval_join_key("j"), format!("interval-join/{}", e("j")));
    assert_eq!(
        interval_join_side_key("j", "left", "k", 4, 5),
        format!("interval-join-left/{}/{}/{:010}/{:020}", e("j"), e("k"), 4, 5)
    );
    assert_eq!(
        interval_join_output_key("j", Some((1, 2)), None),
        format!("interval-join-output/{}/{:010}-{:020}-none", e("j"), 1, 2)
    );
    assert_eq!(deduplicate_key("d"), format!("deduplicate/{}", e("d")));
    assert_eq!(
        deduplicate_buffer_key("d", 1, 9),
        format!("deduplicate-buffer/{}/{:010}/{:020}", e("d"), 1, 9)
    );
    assert_eq!(deduplicate_state_key("d", "k"), format!("deduplicate-state/{}/{}", e("d"), e("k")));
    assert_eq!(
        deduplicate_output_key("d", 1, 9),
        format!("deduplicate-output/{}/{:010}/{:020}", e("d"), 1, 9)
    );
    assert_eq!(stream_filter_key("f"), format!("stream-filter/{}", e("f")));
    assert_eq!(
        stream_filter_output_key("f", 0, 3),
        format!("stream-filter-output/{}/{:010}/{:020}", e("f"), 0, 3)
    );
}

#[test]
fn prefixes_are_the_leading_part_of_their_keys() {
    assert_eq!(keyspace::workflow_child_prefix("p"), format!("workflow-child/{}/", e("p")));
    assert!(keyspace::workflow_child_key("p", "c").starts_with(&keyspace::workflow_child_prefix("p")));
    assert_eq!(keyspace::stream_record_prefix("s"), format!("stream-record/{}/", e("s")));
    assert_eq!(keyspace::late_record_prefix("s"), format!("late-record/{}/", e("s")));
    assert!(late_record_key("s", 3).starts_with(&keyspace::late_record_prefix("s")));
    assert_eq!(keyspace::watermark_timer_prefix("s"), format!("watermark-timer/{}/", e("s")));
    assert_eq!(keyspace::window_accumulator_prefix("d"), format!("window-accumulator/{}/", e("d")));
    let start = 1.0f64.to_bits();
    assert_eq!(
        keyspace::window_value_prefix("d", start, None),
        format!("window-value/{}/{:016x}//", e("d"), ordered_f64_bits(start))
    );
    assert_eq!(keyspace::process_stream_prefix("s"), format!("process-stream/{}/", e("s")));
    assert_eq!(keyspace::process_mailbox_prefix("p"), format!("process-mailbox/{}/", e("p")));
    assert_eq!(
        keyspace::process_shard_mailbox_prefix("p", 2),
        format!("process-shard-mailbox/{}/0002/", e("p"))
    );
    assert_eq!(keyspace::process_ready_prefix(2), "process-ready/0002/");
    assert!(process_ready_key(2, "p", 1).starts_with(&keyspace::process_ready_prefix(2)));
    assert_eq!(keyspace::temporal_join_probe_prefix("j"), format!("temporal-join-probe/{}/", e("j")));
    assert_eq!(keyspace::temporal_join_version_prefix("j"), format!("temporal-join-version/{}/", e("j")));
    assert_eq!(
        keyspace::temporal_join_versions_for_key_prefix("j", "k"),
        format!("temporal-join-version/{}/{}/", e("j"), e("k"))
    );
    assert_eq!(keyspace::temporal_join_output_prefix("j"), format!("temporal-join-output/{}/", e("j")));
    assert_eq!(keyspace::interval_join_side_prefix("j", "right"), format!("interval-join-right/{}/", e("j")));
    assert_eq!(
        keyspace::interval_join_side_key_prefix("j", "right", "k"),
        format!("interval-join-right/{}/{}/", e("j"), e("k"))
    );
    assert_eq!(keyspace::interval_join_output_prefix("j"), format!("interval-join-output/{}/", e("j")));
    assert_eq!(keyspace::deduplicate_buffer_prefix("d"), format!("deduplicate-buffer/{}/", e("d")));
    assert_eq!(keyspace::deduplicate_state_prefix("d"), format!("deduplicate-state/{}/", e("d")));
    assert_eq!(keyspace::deduplicate_output_prefix("d"), format!("deduplicate-output/{}/", e("d")));
    assert_eq!(keyspace::stream_filter_output_prefix("f"), format!("stream-filter-output/{}/", e("f")));
    assert_eq!(keyspace::outbox_prefix("sink"), format!("outbox/{}/", e("sink")));
}

#[test]
fn process_workflows_are_named_by_process_key_and_sequence() {
    assert_eq!(
        process_workflow_id("orders", "k/1", 12),
        format!("process/orders/{}/{:020}", e("k/1"), 12)
    );
}
