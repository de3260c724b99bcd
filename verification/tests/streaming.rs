use highwater::streaming::{
    accumulator_change_kinds, latest_version_as_of, window_count_step, AccumulatorChange,
    ChangeKind, VersionStamp, WindowCountError,
};

fn stamps(versions: &[(u64, f64, bool)], as_of: f64) -> Vec<VersionStamp> {
    versions
        .iter()
        .map(|(sequence, event_time, addition)| VersionStamp {
            event_time_bits: event_time.to_bits(),
            sequence: *sequence,
            addition: *addition,
            at_or_before: *event_time <= as_of,
        })
        .collect()
}

#[test]
fn temporal_join_selects_latest_version_before_observing_tombstone() {
    let versions = [(1, 5.0, true), (2, 8.0, true), (3, 10.0, false)];
    let at_nine = stamps(&versions, 9.0);
    assert_eq!(
        latest_version_as_of(&at_nine).map(|index| at_nine[index].sequence),
        Some(2),
    );
    assert_eq!(latest_version_as_of(&stamps(&versions, 10.0)), None);
}

#[test]
fn equal_event_times_fall_back_to_sequence_and_the_last_tie() {
    let versions = [(7, 4.0, true), (3, 4.0, true), (7, 4.0, true), (1, -2.5, true)];
    let all = stamps(&versions, 4.0);
    assert_eq!(latest_version_as_of(&all), Some(2));
    let before = stamps(&versions, 0.0);
    assert_eq!(latest_version_as_of(&before), Some(3));
    assert_eq!(latest_version_as_of(&stamps(&versions, -3.0)), None);
    assert_eq!(latest_version_as_of(&[]), None);
}

#[test]
fn negative_event_times_order_below_positive_ones() {
    let versions = [(9, 1.5, true), (1, -7.0, true)];
    let all = stamps(&versions, 2.0);
    assert_eq!(latest_version_as_of(&all), Some(0));
}

#[test]
fn window_counts_add_weights_and_refuse_unmatched_retractions() {
    assert_eq!(window_count_step(None, 1), Ok((1, AccumulatorChange::Added)));
    assert_eq!(window_count_step(Some(1), 1), Ok((2, AccumulatorChange::Replaced)));
    assert_eq!(window_count_step(Some(2), -1), Ok((1, AccumulatorChange::Replaced)));
    assert_eq!(
        window_count_step(Some(1), -1),
        Ok((0, AccumulatorChange::Removed { had_previous: true }))
    );
    assert_eq!(window_count_step(None, -1), Err(WindowCountError::UnmatchedRetraction));
    assert_eq!(
        window_count_step(None, 0),
        Ok((0, AccumulatorChange::Removed { had_previous: false }))
    );
}

#[test]
fn window_changelogs_retract_before_they_add() {
    assert_eq!(accumulator_change_kinds(AccumulatorChange::Added), vec![ChangeKind::Insert]);
    assert_eq!(
        accumulator_change_kinds(AccumulatorChange::Replaced),
        vec![ChangeKind::UpdateBefore, ChangeKind::UpdateAfter]
    );
    assert_eq!(
        accumulator_change_kinds(AccumulatorChange::Removed { had_previous: true }),
        vec![ChangeKind::Delete]
    );
    assert!(accumulator_change_kinds(AccumulatorChange::Removed { had_previous: false }).is_empty());
    let total: i64 = accumulator_change_kinds(AccumulatorChange::Replaced)
        .iter()
        .map(|kind| kind.weight())
        .sum();
    assert_eq!(total, 0);
}
