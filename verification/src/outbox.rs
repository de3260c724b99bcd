//! Delivery of outbox messages to sink consumers: a message is leased to one consumer at a
//! time, and only that consumer's acknowledgment ends its delivery.
use crate::text::{is_blank, spec_is_blank, str_eq};
use vstd::prelude::*;

verus! {

/// Why a sink request was refused.
#[derive(Debug, Clone, Copy, PartialEq, Eq, Structural)]
pub enum SinkError {
    /// The consumer id is blank or the lease length is not positive.
    InvalidPoll,
    /// The consumer acknowledging the message does not hold its live lease.
    LeaseNotOwned,
}

/// A poll names its consumer and asks for a positive lease length.
pub fn check_sink_poll(consumer_id: &str, lease_positive: bool) -> (r: Result<(), SinkError>)
    ensures
        r == if spec_is_blank(consumer_id@) || !lease_positive {
            Err(SinkError::InvalidPoll)
        } else {
            Ok::<(), SinkError>(())
        },
{
    if is_blank(consumer_id) || !lease_positive {
        Err(SinkError::InvalidPoll)
    } else {
        Ok(())
    }
}

/// A message may be handed to a consumer while it is unacknowledged and no lease on it is
/// live.
pub open spec fn spec_deliverable(acknowledged: bool, lease_live: bool) -> bool {
    !acknowledged && !lease_live
}

pub fn deliverable(acknowledged: bool, lease_live: bool) -> (d: bool)
    ensures
        d == spec_deliverable(acknowledged, lease_live),
{
    !acknowledged && !lease_live
}

/// What an acknowledgment does to a message.
#[derive(Debug, Clone, Copy, PartialEq, Eq, Structural)]
pub enum AckOutcome {
    /// The message was already acknowledged; nothing changes.
    AlreadyAcknowledged,
    /// The message is acknowledged now and its lease released.
    Acknowledged,
}

pub open spec fn spec_acknowledge(
    acknowledged: bool,
    lease_owner: Option<Seq<char>>,
    consumer_id: Seq<char>,
    lease_live: bool,
) -> Result<AckOutcome, SinkError> {
    if acknowledged {
        Ok(AckOutcome::AlreadyAcknowledged)
    } else if lease_owner != Some(consumer_id) || !lease_live {
        Err(SinkError::LeaseNotOwned)
    } else {
        Ok(AckOutcome::Acknowledged)
    }
}

/// Decides an acknowledgment: a repeated one is accepted without change, and a first one
/// only from the consumer that holds the live lease.
pub fn acknowledge(
    acknowledged: bool,
    lease_owner: Option<&str>,
    consumer_id: &str,
    lease_live: bool,
) -> (r: Result<AckOutcome, SinkError>)
    ensures
        r == spec_acknowledge(
            acknowledged,
            match lease_owner {
                Some(o) => Some(o@),
                None => None,
            },
            consumer_id@,
            lease_live,
        ),
{
    if acknowledged {
        return Ok(AckOutcome::AlreadyAcknowledged);
    }
    let owned = match lease_owner {
        Some(o) => str_eq(o, consumer_id),
        None => false,
    };
    if !owned || !lease_live {
        Err(SinkError::LeaseNotOwned)
    } else {
        Ok(AckOutcome::Acknowledged)
    }
}

/// Once its live leaseholder acknowledges a message, it is never delivered again, and a
/// repeated acknowledgment, from anyone, changes nothing.
pub proof fn law_acknowledged_messages_stay_delivered(
    consumer_id: Seq<char>,
    other: Seq<char>,
    lease_live: bool,
    later_lease_live: bool,
)
    ensures
        spec_acknowledge(false, Some(consumer_id), consumer_id, true) == Ok::<
            AckOutcome,
            SinkError,
        >(AckOutcome::Acknowledged),
        !spec_deliverable(true, later_lease_live),
        spec_acknowledge(true, None, other, lease_live) == Ok::<AckOutcome, SinkError>(
            AckOutcome::AlreadyAcknowledged,
        ),
{
}

} // verus!
