use highwater::outbox::{acknowledge, check_sink_poll, deliverable, AckOutcome, SinkError};

#[test]
fn sink_polls_need_a_consumer_and_a_lease() {
    assert_eq!(check_sink_poll("worker-1", true), Ok(()));
    assert_eq!(check_sink_poll(" ", true), Err(SinkError::InvalidPoll));
    assert_eq!(check_sink_poll("worker-1", false), Err(SinkError::InvalidPoll));
}

#[test]
fn only_the_leaseholder_acknowledges_and_only_once() {
    assert!(deliverable(false, false));
    assert!(!deliverable(false, true));
    assert!(!deliverable(true, false));
    assert_eq!(acknowledge(false, Some("w1"), "w1", true), Ok(AckOutcome::Acknowledged));
    assert_eq!(acknowledge(false, Some("w1"), "w2", true), Err(SinkError::LeaseNotOwned));
    assert_eq!(acknowledge(false, Some("w1"), "w1", false), Err(SinkError::LeaseNotOwned));
    assert_eq!(acknowledge(false, None, "w1", true), Err(SinkError::LeaseNotOwned));
    assert_eq!(acknowledge(true, None, "w2", false), Ok(AckOutcome::AlreadyAcknowledged));
}
