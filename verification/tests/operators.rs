use highwater::operators::{
    check_schedule_identity, check_stream_identity, DeduplicateSpec, IntervalJoinSpec,
    OperatorSpecError, StreamFilterSpec, TemporalJoinSpec,
};
use highwater::streaming::{Comparison, IntervalJoinType, TemporalJoinType};

fn temporal(probe: &str, version: &str) -> TemporalJoinSpec {
    TemporalJoinSpec {
        join_id: "j".to_owned(),
        probe_stream: probe.to_owned(),
        version_stream: version.to_owned(),
        workflow_type: "W".to_owned(),
        task_queue: "default".to_owned(),
        join_type: TemporalJoinType::Inner,
    }
}

#[test]
fn temporal_joins_need_two_distinct_streams() {
    assert_eq!(temporal("orders", "accounts").validate(), Ok(()));
    assert_eq!(temporal("orders", "orders").validate(), Err(OperatorSpecError::SameStreams));
    assert_eq!(temporal(" ", "orders").validate(), Err(OperatorSpecError::EmptyStream));
    let mut unnamed = temporal("a", "b");
    unnamed.join_id = String::new();
    assert_eq!(unnamed.validate(), Err(OperatorSpecError::EmptyIdentifier));
    let mut left = temporal("a", "b");
    assert!(left.has_same_spec(&temporal("a", "b")));
    left.join_type = TemporalJoinType::Left;
    assert!(!left.has_same_spec(&temporal("a", "b")));
}

#[test]
fn interval_joins_check_bounds_in_order() {
    let join = |left: &str, right: &str| IntervalJoinSpec {
        join_id: "j".to_owned(),
        left_stream: left.to_owned(),
        right_stream: right.to_owned(),
        workflow_type: "W".to_owned(),
        task_queue: "default".to_owned(),
        join_type: IntervalJoinType::Inner,
    };
    assert_eq!(join("a", "b").validate(true, true), Ok(()));
    assert_eq!(join("a", "a").validate(true, true), Err(OperatorSpecError::NegativeSelfJoin));
    assert_eq!(join("a", "a").validate(true, false), Ok(()));
    assert_eq!(join("a", "b").validate(false, false), Err(OperatorSpecError::InvalidBounds));
    assert_eq!(join("", "b").validate(false, false), Err(OperatorSpecError::EmptyStream));
}

#[test]
fn deduplicates_and_filters_need_their_names() {
    let dedup = DeduplicateSpec {
        operator_id: "d".to_owned(),
        stream: "s".to_owned(),
        workflow_type: " ".to_owned(),
        task_queue: "q".to_owned(),
    };
    assert_eq!(dedup.validate(), Err(OperatorSpecError::EmptyWorkflowType));
    let other = DeduplicateSpec {
        operator_id: "d".to_owned(),
        stream: "s".to_owned(),
        workflow_type: " ".to_owned(),
        task_queue: "q".to_owned(),
    };
    assert!(dedup.has_same_spec(&other));
    let filter = StreamFilterSpec {
        operator_id: "f".to_owned(),
        stream: "s".to_owned(),
        workflow_type: "W".to_owned(),
        task_queue: "q".to_owned(),
        field: "".to_owned(),
        comparison: Comparison::GreaterThan,
    };
    assert_eq!(filter.validate(), Err(OperatorSpecError::EmptyFilterSetting));
    assert_eq!(check_stream_identity("events", 1), Ok(()));
    assert_eq!(check_stream_identity("events", 0), Err(OperatorSpecError::NoPartitions));
    assert_eq!(check_stream_identity("", 0), Err(OperatorSpecError::EmptyStreamName));
    assert_eq!(check_schedule_identity("\t"), Err(OperatorSpecError::EmptyIdentifier));
}
