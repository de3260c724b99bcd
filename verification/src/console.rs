//! Health of the durable service as the console reports it.
use vstd::prelude::*;
use crate::text::str_eq;

verus! {

/// Durability is healthy only while every partition owner and every key group holds an
/// active lease.
pub fn durability_status(
    partition_owners: usize,
    active_partition_owners: usize,
    key_groups: usize,
    active_key_groups: usize,
) -> (status: &'static str)
    ensures
        status@ == if active_partition_owners == partition_owners && active_key_groups
            == key_groups {
            "HEALTHY"@
        } else {
            "DEGRADED"@
        },
{
    if active_partition_owners == partition_owners && active_key_groups == key_groups {
        "HEALTHY"
    } else {
        "DEGRADED"
    }
}

/// History events that count as a retry on the console: a scheduled activity retry or a
/// failed workflow task.
pub open spec fn is_retry_event(event_type: Seq<char>) -> bool {
    event_type == "ACTIVITY_RETRY_SCHEDULED"@ || event_type == "WORKFLOW_TASK_FAILED"@
}

pub open spec fn retry_count(event_types: Seq<String>) -> nat
    decreases event_types.len(),
{
    if event_types.len() == 0 {
        0
    } else {
        (if is_retry_event(event_types.last()@) {
            1nat
        } else {
            0nat
        }) + retry_count(event_types.drop_last())
    }
}

/// How many retries a workflow's history shows.
pub fn count_retries(event_types: &[String]) -> (count: usize)
    ensures
        count == retry_count(event_types@),
{
    let mut count: usize = 0;
    let mut i: usize = 0;
    while i < event_types.len()
        invariant
            i <= event_types.len(),
            count == retry_count(event_types@.subrange(0, i as int)),
            count <= i,
        decreases event_types.len() - i,
    {
        let ghost before = event_types@.subrange(0, i as int);
        let ghost next = event_types@.subrange(0, i + 1);
        assert(next.drop_last() =~= before);
        let text = event_types[i].as_str();
        if str_eq(text, "ACTIVITY_RETRY_SCHEDULED") || str_eq(text, "WORKFLOW_TASK_FAILED") {
            count = count + 1;
        }
        i = i + 1;
    }
    assert(event_types@.subrange(0, event_types.len() as int) =~= event_types@);
    count
}

/// A process's execution counters.
#[derive(Clone, Copy, Debug, PartialEq, Eq, Structural)]
pub struct ProcessCounts {
    pub pending: u64,
    pub running: u64,
    pub completed: u64,
    pub failed: u64,
}

/// The console shows a process's counters with those of all its shards added in.
pub fn add_shard_counts(total: &mut ProcessCounts, shard: &ProcessCounts)
    requires
        old(total).pending + shard.pending <= u64::MAX,
        old(total).running + shard.running <= u64::MAX,
        old(total).completed + shard.completed <= u64::MAX,
        old(total).failed + shard.failed <= u64::MAX,
    ensures
        final(total).pending == old(total).pending + shard.pending,
        final(total).running == old(total).running + shard.running,
        final(total).completed == old(total).completed + shard.completed,
        final(total).failed == old(total).failed + shard.failed,
{
    total.pending = total.pending + shard.pending;
    total.running = total.running + shard.running;
    total.completed = total.completed + shard.completed;
    total.failed = total.failed + shard.failed;
}

} // verus!
