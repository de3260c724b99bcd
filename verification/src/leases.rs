//! Ownership generations: key-group leases, process-partition owners and source leases.
//! Each change of owner advances a durable epoch, and work stamped with an older epoch is
//! refused. Lease expiry is decided by the caller's clock and handed in as a flag.
use crate::text::str_eq;
use vstd::prelude::*;

verus! {

/// Why an owner was refused.
#[derive(Debug, Clone, Copy, PartialEq, Eq, Structural)]
pub enum FenceError {
    /// No owner record exists.
    Unassigned,
    /// Another owner holds the record, or the caller's lease expired; carries the current epoch.
    Fenced(u64),
    /// The activation sequence of the partition is exhausted.
    SequenceExhausted,
    /// The expected epoch or lifecycle state no longer holds.
    Changed(u64),
}

/// The durable lease of one key group.
pub struct KeyGroupLease {
    pub key_group: u32,
    pub owner: String,
    pub epoch: u64,
}

/// The epoch a node may stamp on key-group work, or why it is fenced.
pub fn owned_key_group_epoch(lease: Option<&KeyGroupLease>, node_id: &str, expired: bool) -> (r:
    Result<u64, FenceError>)
    ensures
        match lease {
            None => r == Err::<u64, FenceError>(FenceError::Unassigned),
            Some(l) => if l.owner@ == node_id@ && !expired {
                r == Ok::<u64, FenceError>(l.epoch)
            } else {
                r == Err::<u64, FenceError>(FenceError::Fenced(l.epoch))
            },
        },
{
    match lease {
        None => Err(FenceError::Unassigned),
        Some(l) => {
            if !str_eq(l.owner.as_str(), node_id) || expired {
                Err(FenceError::Fenced(l.epoch))
            } else {
                Ok(l.epoch)
            }
        },
    }
}

/// What starting a node does to one key group's lease.
pub enum KeyGroupStart {
    /// The node already owns the group; only its lease is extended.
    Renew,
    /// The group is vacant or its lease expired: write this lease.
    Claim(KeyGroupLease),
    /// Another node holds a live lease.
    Leave,
}

/// The decision a starting node makes for one key group.
pub fn start_key_group(existing: Option<&KeyGroupLease>, key_group: u32, node_id: &str, expired: bool) -> (r:
    KeyGroupStart)
    requires
        existing matches Some(l) ==> l.epoch < u64::MAX,
    ensures
        match existing {
            None => r matches KeyGroupStart::Claim(l) && l.key_group == key_group && l.owner@
                == node_id@ && l.epoch == 1,
            Some(l) => if l.owner@ == node_id@ {
                r is Renew
            } else if expired {
                r matches KeyGroupStart::Claim(n) && n.key_group == l.key_group && n.owner@
                    == node_id@ && n.epoch == l.epoch + 1
            } else {
                r is Leave
            },
        },
{
    match existing {
        None => KeyGroupStart::Claim(
            KeyGroupLease { key_group, owner: node_id.to_owned(), epoch: 1 },
        ),
        Some(l) => {
            if str_eq(l.owner.as_str(), node_id) {
                KeyGroupStart::Renew
            } else if expired {
                KeyGroupStart::Claim(
                    KeyGroupLease {
                        key_group: l.key_group,
                        owner: node_id.to_owned(),
                        epoch: l.epoch + 1,
                    },
                )
            } else {
                KeyGroupStart::Leave
            }
        },
    }
}

/// Reassigns a key group to a new owner, provided its epoch is still the one the operator saw.
pub fn assign_key_group(lease: &KeyGroupLease, expected_epoch: u64, owner: &str) -> (r: Result<
    KeyGroupLease,
    FenceError,
>)
    requires
        lease.epoch < u64::MAX,
    ensures
        lease.epoch == expected_epoch ==> (r matches Ok(n) && n.key_group == lease.key_group
            && n.owner@ == owner@ && n.epoch == lease.epoch + 1),
        lease.epoch != expected_epoch ==> r == Err::<KeyGroupLease, FenceError>(
            FenceError::Changed(lease.epoch),
        ),
{
    if lease.epoch != expected_epoch {
        return Err(FenceError::Changed(lease.epoch));
    }
    Ok(KeyGroupLease { key_group: lease.key_group, owner: owner.to_owned(), epoch: lease.epoch + 1 })
}

/// Where a process partition is in its ownership lifecycle.
#[derive(Debug, Clone, Copy, PartialEq, Eq, Structural)]
pub enum PartitionStatus {
    Active,
    Draining,
    Restoring,
}

/// The durable owner record of one process partition.
pub struct PartitionOwner {
    pub partition_id: u32,
    pub owner: String,
    pub epoch: u64,
    pub next_activation_sequence: u64,
    pub status: PartitionStatus,
}

pub open spec fn saturating_increment(value: u64) -> u64 {
    if value == u64::MAX {
        value
    } else {
        (value + 1) as u64
    }
}

/// The generation and activation counter a runtime takes over a partition with: a new
/// generation, and the counter kept so that activations never repeat.
pub open spec fn spec_take_over_generation(current: Option<(u64, u64)>) -> (u64, u64) {
    match current {
        None => (1, 0),
        Some((epoch, next)) => (saturating_increment(epoch), next),
    }
}

/// The epoch a runtime may stamp on partition work, given the owner's name and epoch.
pub open spec fn spec_partition_epoch(
    owner: Option<(Seq<char>, u64)>,
    runtime: Seq<char>,
    expired: bool,
) -> Result<u64, FenceError> {
    match owner {
        None => Err(FenceError::Unassigned),
        Some((name, epoch)) => if name == runtime && !expired {
            Ok(epoch)
        } else {
            Err(FenceError::Fenced(epoch))
        },
    }
}

/// The activation a partition owner issues: its epoch and the next sequence.
pub open spec fn spec_next_activation(
    owner: Seq<char>,
    epoch: u64,
    next: u64,
    runtime: Seq<char>,
    expired: bool,
) -> Result<(u64, u64), FenceError> {
    if owner != runtime || expired {
        Err(FenceError::Fenced(epoch))
    } else if next == u64::MAX {
        Err(FenceError::SequenceExhausted)
    } else {
        Ok((epoch, (next + 1) as u64))
    }
}

/// A runtime taking over a partition at startup: a new generation that fences every previous
/// runtime, keeping the activation sequence so activations never repeat.
pub fn take_over_partition(current: Option<&PartitionOwner>, partition_id: u32, runtime_id: &str) -> (owner:
    PartitionOwner)
    ensures
        owner.partition_id == partition_id,
        owner.owner@ == runtime_id@,
        owner.status == PartitionStatus::Active,
        (owner.epoch, owner.next_activation_sequence) == spec_take_over_generation(
            match current {
                Some(c) => Some((c.epoch, c.next_activation_sequence)),
                None => None,
            },
        ),
{
    let (epoch, next_activation_sequence) = match current {
        None => (1u64, 0u64),
        Some(c) => (c.epoch.saturating_add(1), c.next_activation_sequence),
    };
    PartitionOwner {
        partition_id,
        owner: runtime_id.to_owned(),
        epoch,
        next_activation_sequence,
        status: PartitionStatus::Active,
    }
}

/// Refuses a runtime that no longer owns a partition.
pub fn check_partition_owner(owner: &PartitionOwner, runtime_id: &str) -> (r: Result<(), FenceError>)
    ensures
        owner.owner@ == runtime_id@ ==> r is Ok,
        owner.owner@ != runtime_id@ ==> r == Err::<(), FenceError>(FenceError::Fenced(owner.epoch)),
{
    if !str_eq(owner.owner.as_str(), runtime_id) {
        Err(FenceError::Fenced(owner.epoch))
    } else {
        Ok(())
    }
}

/// The epoch a runtime may stamp on partition work, or why it is fenced.
pub fn owned_process_partition_epoch(owner: Option<&PartitionOwner>, runtime_id: &str, expired: bool) -> (r:
    Result<u64, FenceError>)
    ensures
        r == spec_partition_epoch(
            match owner {
                Some(o) => Some((o.owner@, o.epoch)),
                None => None,
            },
            runtime_id@,
            expired,
        ),
{
    match owner {
        None => Err(FenceError::Unassigned),
        Some(o) => {
            if !str_eq(o.owner.as_str(), runtime_id) || expired {
                Err(FenceError::Fenced(o.epoch))
            } else {
                Ok(o.epoch)
            }
        },
    }
}

/// Issues the next activation of a partition to its live owner: the owner's epoch and a
/// sequence one past the last one issued, which `owner` records.
pub fn next_process_partition_activation(owner: &mut PartitionOwner, runtime_id: &str, expired: bool) -> (r:
    Result<(u64, u64), FenceError>)
    ensures
        final(owner).partition_id == old(owner).partition_id,
        final(owner).owner == old(owner).owner,
        final(owner).epoch == old(owner).epoch,
        final(owner).status == old(owner).status,
        r == spec_next_activation(
            old(owner).owner@,
            old(owner).epoch,
            old(owner).next_activation_sequence,
            runtime_id@,
            expired,
        ),
        final(owner).next_activation_sequence == match r {
            Ok((_, sequence)) => sequence,
            Err(_) => old(owner).next_activation_sequence,
        },
{
    if !str_eq(owner.owner.as_str(), runtime_id) || expired {
        return Err(FenceError::Fenced(owner.epoch));
    }
    match owner.next_activation_sequence.checked_add(1) {
        None => Err(FenceError::SequenceExhausted),
        Some(next) => {
            owner.next_activation_sequence = next;
            Ok((owner.epoch, next))
        },
    }
}

/// The first step of moving a partition: its live owner stops admitting work.
pub fn begin_partition_transfer(owner: &PartitionOwner, runtime_id: &str, expected_epoch: u64) -> (r:
    Result<PartitionStatus, FenceError>)
    ensures
        (owner.owner@ == runtime_id@ && owner.epoch == expected_epoch && owner.status
            == PartitionStatus::Active) ==> r == Ok::<PartitionStatus, FenceError>(
            PartitionStatus::Draining,
        ),
        !(owner.owner@ == runtime_id@ && owner.epoch == expected_epoch && owner.status
            == PartitionStatus::Active) ==> r == Err::<PartitionStatus, FenceError>(
            FenceError::Changed(owner.epoch),
        ),
{
    if !str_eq(owner.owner.as_str(), runtime_id) || owner.epoch != expected_epoch || owner.status
        != PartitionStatus::Active {
        Err(FenceError::Changed(owner.epoch))
    } else {
        Ok(PartitionStatus::Draining)
    }
}

/// The last step of moving a drained partition: the target's pending owner takes the next
/// generation and restores from the checkpoint.
pub fn complete_partition_transfer(owner: &PartitionOwner, runtime_id: &str, expected_epoch: u64, target_node: &str) -> (r:
    Result<PartitionOwner, FenceError>)
    ensures
        (owner.owner@ == runtime_id@ && owner.epoch == expected_epoch && owner.status
            == PartitionStatus::Draining) ==> (r matches Ok(n) && n.partition_id
            == owner.partition_id && n.owner@ == target_node@ + ":pending"@ && n.epoch
            == saturating_increment(owner.epoch) && n.next_activation_sequence
            == owner.next_activation_sequence && n.status == PartitionStatus::Restoring),
        !(owner.owner@ == runtime_id@ && owner.epoch == expected_epoch && owner.status
            == PartitionStatus::Draining) ==> r == Err::<PartitionOwner, FenceError>(
            FenceError::Changed(owner.epoch),
        ),
{
    if !str_eq(owner.owner.as_str(), runtime_id) || owner.epoch != expected_epoch || owner.status
        != PartitionStatus::Draining {
        return Err(FenceError::Changed(owner.epoch));
    }
    let mut name = target_node.to_owned();
    name.append(":pending");
    Ok(
        PartitionOwner {
            partition_id: owner.partition_id,
            owner: name,
            epoch: owner.epoch.saturating_add(1),
            next_activation_sequence: owner.next_activation_sequence,
            status: PartitionStatus::Restoring,
        },
    )
}

/// A restarted runtime fences the runtime it replaces: the replaced runtime is refused,
/// and the new runtime's next activation outranks, in epoch and in sequence, every
/// activation issued before the takeover.
pub proof fn law_takeover_fences_previous_runtime(
    previous: Seq<char>,
    successor: Seq<char>,
    epoch: u64,
    next_sequence: u64,
    issued_epoch: u64,
    issued_sequence: u64,
    expired: bool,
)
    requires
        previous != successor,
        epoch < u64::MAX,
        next_sequence < u64::MAX,
        issued_epoch <= epoch,
        issued_sequence <= next_sequence,
    ensures
        ({
            let (new_epoch, new_next) = spec_take_over_generation(Some((epoch, next_sequence)));
            &&& spec_partition_epoch(Some((successor, new_epoch)), previous, expired) == Err::<
                u64,
                FenceError,
            >(FenceError::Fenced(new_epoch))
            &&& spec_next_activation(successor, new_epoch, new_next, successor, false) matches Ok(
                (e, s),
            ) && e > issued_epoch && s > issued_sequence
        }),
{
}

/// The durable lease of one source partition.
pub struct SourceLease {
    pub source_id: String,
    pub epoch: u64,
}

/// Why a source could not claim a partition.
#[derive(Debug, Clone, Copy, PartialEq, Eq, Structural)]
pub enum SourceClaimError {
    /// Another source holds a live lease; carries its epoch.
    OwnedByOther(u64),
    /// The source's expected epoch is stale or its lease expired.
    Fenced,
}

/// A source claiming (or renewing, with its expected epoch) one partition. `existing` is the
/// stored lease, or a fresh lease for this source at epoch one; `expired` says whether that
/// lease's expiry has passed.
pub fn claim_source_partition(existing: &SourceLease, source_id: &str, expected_epoch: Option<u64>, expired: bool) -> (r:
    Result<SourceLease, SourceClaimError>)
    requires
        existing.epoch < u64::MAX,
    ensures
        (!expired && existing.source_id@ != source_id@) ==> r == Err::<SourceLease, SourceClaimError>(
            SourceClaimError::OwnedByOther(existing.epoch),
        ),
        (expired || existing.source_id@ == source_id@) ==> match expected_epoch {
            Some(e) => if existing.source_id@ != source_id@ || existing.epoch != e || expired {
                r == Err::<SourceLease, SourceClaimError>(SourceClaimError::Fenced)
            } else {
                r matches Ok(l) && l.source_id@ == source_id@ && l.epoch == existing.epoch
            },
            None => r matches Ok(l) && l.source_id@ == source_id@ && l.epoch == if expired
                || existing.source_id@ != source_id@ {
                existing.epoch + 1
            } else {
                existing.epoch as int
            },
        },
{
    let same_source = str_eq(existing.source_id.as_str(), source_id);
    if !expired && !same_source {
        return Err(SourceClaimError::OwnedByOther(existing.epoch));
    }
    match expected_epoch {
        Some(e) => {
            if !same_source || existing.epoch != e || expired {
                return Err(SourceClaimError::Fenced);
            }
            Ok(SourceLease { source_id: source_id.to_owned(), epoch: existing.epoch })
        },
        None => {
            if expired || !same_source {
                Ok(SourceLease { source_id: source_id.to_owned(), epoch: existing.epoch + 1 })
            } else {
                Ok(SourceLease { source_id: source_id.to_owned(), epoch: existing.epoch })
            }
        },
    }
}

} // verus!
