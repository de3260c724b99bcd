use highwater::console::{add_shard_counts, count_retries, ProcessCounts};
use highwater::console::durability_status;

#[test]
fn durability_health_requires_every_lease_to_be_active() {
    assert_eq!(durability_status(2, 2, 128, 128), "HEALTHY");
    assert_eq!(durability_status(2, 1, 128, 128), "DEGRADED");
    assert_eq!(durability_status(2, 2, 128, 127), "DEGRADED");
}

#[test]
fn durability_is_healthy_with_nothing_to_lease() {
    assert_eq!(durability_status(0, 0, 0, 0), "HEALTHY");
}

#[test]
fn retries_count_activity_retries_and_failed_workflow_tasks() {
    let events: Vec<String> = [
        "WORKFLOW_STARTED",
        "ACTIVITY_RETRY_SCHEDULED",
        "WORKFLOW_TASK_FAILED",
        "ACTIVITY_FAILED",
        "ACTIVITY_RETRY_SCHEDULED",
    ]
    .iter()
    .map(|name| name.to_string())
    .collect();
    assert_eq!(count_retries(&events), 3);
    assert_eq!(count_retries(&[]), 0);
}

#[test]
fn process_counts_add_their_shards() {
    let mut total = ProcessCounts { pending: 1, running: 2, completed: 3, failed: 4 };
    add_shard_counts(&mut total, &ProcessCounts { pending: 10, running: 0, completed: 5, failed: 1 });
    assert_eq!(total, ProcessCounts { pending: 11, running: 2, completed: 8, failed: 5 });
}
