use highwater::model::{
    default_change_kind, default_interval_join_type, default_late_policy,
    default_process_batch_size, default_process_capacity, default_process_concurrency,
    default_process_gate, default_stream_partitions, default_task_queue,
    default_temporal_join_type, default_watermark_mode, default_window_aggregation,
    EventTimeGate,
};
use highwater::streaming::{
    self as streaming, ChangeKind, IntervalJoinType, LatePolicy, TemporalJoinType, WatermarkMode,
    WindowAggregation,
};

#[test]
fn omitted_settings_take_their_documented_defaults() {
    assert_eq!(default_stream_partitions(), 1);
    assert_eq!(default_watermark_mode(), WatermarkMode::Bounded);
    assert_eq!(default_late_policy(), LatePolicy::SideOutput);
    assert_eq!(default_change_kind(), ChangeKind::Upsert);
    assert_eq!(default_window_aggregation(), WindowAggregation::Count);
    assert_eq!(default_process_gate(), EventTimeGate::Immediate);
    assert_eq!(default_process_concurrency(), 64);
    assert_eq!(default_process_capacity(), 10_000);
    assert_eq!(default_process_batch_size(), 64);
    assert_eq!(default_interval_join_type(), IntervalJoinType::Inner);
    assert_eq!(default_temporal_join_type(), TemporalJoinType::Inner);
    assert_eq!(default_task_queue(), "default");
}

#[test]
fn stream_definitions_share_the_same_defaults() {
    assert_eq!(streaming::default_partitions(), 1);
    assert_eq!(streaming::default_watermark_mode(), WatermarkMode::Bounded);
    assert_eq!(streaming::default_late_policy(), LatePolicy::SideOutput);
    assert_eq!(streaming::default_change_kind(), ChangeKind::Upsert);
    assert_eq!(streaming::default_window_aggregation(), WindowAggregation::Count);
}
