//! Defaults that requests to the service fall back on when a field is left out.
use vstd::prelude::*;
use crate::streaming::{
    ChangeKind, IntervalJoinType, LatePolicy, TemporalJoinType, WatermarkMode, WindowAggregation,
};

verus! {

/// When a process may act on an event: as soon as it arrives, or once the stream's
/// event time is complete up to it.
#[derive(Debug, Clone, Copy, PartialEq, Eq, Structural)]
pub enum EventTimeGate {
    Immediate,
    Complete,
}

/// Partitions of a stream created without a partition count.
pub fn default_stream_partitions() -> (partitions: u32)
    ensures
        partitions == 1,
{
    1
}

/// Watermark mode of a stream created without one.
pub fn default_watermark_mode() -> (mode: WatermarkMode)
    ensures
        mode == WatermarkMode::Bounded,
{
    WatermarkMode::Bounded
}

/// Late policy of a stream created without one.
pub fn default_late_policy() -> (policy: LatePolicy)
    ensures
        policy == LatePolicy::SideOutput,
{
    LatePolicy::SideOutput
}

/// Change kind of an appended record that names none.
pub fn default_change_kind() -> (kind: ChangeKind)
    ensures
        kind == ChangeKind::Upsert,
{
    ChangeKind::Upsert
}

/// Aggregation of a window schedule created without one.
pub fn default_window_aggregation() -> (aggregation: WindowAggregation)
    ensures
        aggregation == WindowAggregation::Count,
{
    WindowAggregation::Count
}

/// Event-time gate of a process created without one.
pub fn default_process_gate() -> (gate: EventTimeGate)
    ensures
        gate == EventTimeGate::Immediate,
{
    EventTimeGate::Immediate
}

/// Keys a process runs at once when its request names no limit.
pub fn default_process_concurrency() -> (keys: u32)
    ensures
        keys == 64,
{
    64
}

/// Mailbox capacity of a process created without one.
pub fn default_process_capacity() -> (capacity: u64)
    ensures
        capacity == 10_000,
{
    10_000
}

/// Largest activation batch of a process created without one.
pub fn default_process_batch_size() -> (size: u32)
    ensures
        size == 64,
{
    64
}

/// Join type of an interval join created without one.
pub fn default_interval_join_type() -> (join_type: IntervalJoinType)
    ensures
        join_type == IntervalJoinType::Inner,
{
    IntervalJoinType::Inner
}

/// Join type of a temporal join created without one.
pub fn default_temporal_join_type() -> (join_type: TemporalJoinType)
    ensures
        join_type == TemporalJoinType::Inner,
{
    TemporalJoinType::Inner
}

/// Task queue of a workflow-starting operator created without one.
pub fn default_task_queue() -> (queue: String)
    ensures
        queue@ == "default"@,
{
    "default".to_owned()
}

} // verus!
