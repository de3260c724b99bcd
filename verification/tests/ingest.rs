use highwater::ingest::unsign_zeros;
use highwater::ingest::{stream_append_decision, IndexedRecord, StreamAppend};
use highwater::streaming::ChangeKind;
use highwater::ingest::{
    advance_source_cursor, disposition_name, effective_event_id, is_accepted,
    record_disposition, source_position, AppendError, RecordDisposition,
};
use highwater::streaming::LatePolicy;

#[test]
fn source_metadata_comes_complete_or_not_at_all() {
    assert!(matches!(source_position(None, None, None, None), Ok(None)));
    let position = source_position(Some("kafka"), Some(2), Some(40), Some(10))
        .unwrap()
        .unwrap();
    assert_eq!(position.source_id, "kafka");
    assert_eq!(position.partition, 2);
    assert_eq!(position.offset, 40);
    assert!(matches!(
        source_position(Some("kafka"), None, Some(40), None),
        Err(AppendError::IncompleteSource)
    ));
    assert!(matches!(
        source_position(Some(" "), Some(1), Some(1), None),
        Err(AppendError::IncompleteSource)
    ));
    assert!(matches!(
        source_position(None, None, None, Some(1)),
        Err(AppendError::InvalidCheckpoint)
    ));
    assert!(matches!(
        source_position(Some("k"), Some(1), Some(1), Some(0)),
        Err(AppendError::InvalidCheckpoint)
    ));
    assert!(matches!(
        source_position(Some("k"), Some(1), Some(1), Some(4097)),
        Err(AppendError::InvalidCheckpoint)
    ));
}

#[test]
fn source_records_are_identified_by_position() {
    let position = source_position(Some("kafka"), Some(2), Some(40), None).unwrap();
    assert_eq!(
        effective_event_id(None, &position).unwrap().as_deref(),
        Some("source:kafka:2:40")
    );
    assert_eq!(
        effective_event_id(Some("evt-1"), &position).unwrap().as_deref(),
        Some("evt-1")
    );
    assert_eq!(effective_event_id(None, &None).unwrap(), None);
    assert_eq!(effective_event_id(Some(" "), &None), Err(AppendError::EmptyEventId));
}

#[test]
fn source_offsets_must_arrive_in_order() {
    assert_eq!(advance_source_cursor(0, 0), Ok(1));
    assert_eq!(advance_source_cursor(5, 4), Err(AppendError::UnexpectedOffset));
    assert_eq!(advance_source_cursor(u64::MAX, u64::MAX), Err(AppendError::OffsetOverflow));
}

#[test]
fn late_policy_decides_what_becomes_of_late_records() {
    assert_eq!(record_disposition(false, false, LatePolicy::Drop), RecordDisposition::Accepted);
    assert_eq!(record_disposition(true, false, LatePolicy::Drop), RecordDisposition::AcceptedLate);
    assert_eq!(record_disposition(true, true, LatePolicy::Drop), RecordDisposition::Dropped);
    assert_eq!(
        record_disposition(true, true, LatePolicy::SideOutput),
        RecordDisposition::SideOutput
    );
    assert_eq!(
        record_disposition(true, true, LatePolicy::Accept),
        RecordDisposition::AcceptedTooLate
    );
    assert!(is_accepted(false, LatePolicy::Drop));
    assert!(!is_accepted(true, LatePolicy::SideOutput));
    assert!(is_accepted(true, LatePolicy::Accept));
    assert_eq!(disposition_name(RecordDisposition::AcceptedTooLate), "accepted_too_late");
    assert_eq!(disposition_name(RecordDisposition::SideOutput), "side_output");
}

fn record(partition: u32, value: &str) -> IndexedRecord {
    IndexedRecord {
        partition,
        event_time_bits: 2.5f64.to_bits(),
        key: Some("k".to_owned()),
        value_json: value.as_bytes().to_vec(),
        kind: ChangeKind::Insert,
    }
}

#[test]
fn event_ids_make_appends_idempotent() {
    let request = record(0, r#"{"a":1}"#);
    assert_eq!(stream_append_decision(None, &request), Ok(StreamAppend::Write));
    assert_eq!(stream_append_decision(Some(&record(0, r#"{"a":1}"#)), &request), Ok(StreamAppend::Duplicate));
    assert_eq!(stream_append_decision(Some(&record(1, r#"{"a":1}"#)), &request), Err(AppendError::EventIdReused));
    assert_eq!(stream_append_decision(Some(&record(0, r#"{"a":2}"#)), &request), Err(AppendError::EventIdReused));
    let mut other_kind = record(0, r#"{"a":1}"#);
    other_kind.kind = ChangeKind::Delete;
    assert_eq!(stream_append_decision(Some(&other_kind), &request), Err(AppendError::EventIdReused));
}

#[test]
fn reused_event_ids_compare_contents_as_numbers() {
    let request = record(0, r#"{"a":0.0,"b":"-0.0"}"#);
    let mut negative_time = record(0, r#"{"a":0.0,"b":"-0.0"}"#);
    negative_time.event_time_bits = (-0.0f64).to_bits();
    let mut positive_time = record(0, r#"{"a":0.0,"b":"-0.0"}"#);
    positive_time.event_time_bits = 0.0f64.to_bits();
    assert_eq!(stream_append_decision(Some(&negative_time), &positive_time), Ok(StreamAppend::Duplicate));
    assert_eq!(
        stream_append_decision(Some(&record(0, r#"{"a":-0.0,"b":"-0.0"}"#)), &request),
        Ok(StreamAppend::Duplicate)
    );
    assert_eq!(
        stream_append_decision(Some(&record(0, r#"{"a":0.0,"b":"0.0"}"#)), &request),
        Err(AppendError::EventIdReused)
    );
    assert_eq!(
        stream_append_decision(Some(&record(0, r#"{"a":-0.05,"b":"-0.0"}"#)), &record(0, r#"{"a":0.05,"b":"-0.0"}"#)),
        Err(AppendError::EventIdReused)
    );
    let mut nan = record(0, "1");
    nan.event_time_bits = f64::NAN.to_bits();
    assert_eq!(stream_append_decision(Some(&nan), &nan), Err(AppendError::EventIdReused));
    assert_eq!(unsign_zeros(br#"[-0.0,"\"-0.0",-0.0]"#), br#"[0.0,"\"-0.0",0.0]"#.to_vec());
}
