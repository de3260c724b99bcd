use highwater::graph::{
    check_collection_edges, reachable_from, stream_reaches_any, CollectionEdgeError,
    CollectionStreams,
};

// Streams: 0 orders, 1 enriched, 2 totals, 3 audit.
fn edges() -> Vec<(Vec<usize>, usize)> {
    vec![(vec![0], 1), (vec![1, 3], 2)]
}

#[test]
fn reachability_follows_operator_edges() {
    assert_eq!(reachable_from(&edges(), 4, &[0]), vec![true, true, true, false]);
    assert_eq!(reachable_from(&edges(), 4, &[3]), vec![false, false, true, true]);
    assert_eq!(reachable_from(&edges(), 4, &[]), vec![false; 4]);
}

#[test]
fn edges_that_would_close_a_cycle_are_detected() {
    // A new edge from an operator reading stream 2 back into stream 0 would close a cycle.
    assert!(stream_reaches_any(&edges(), 4, 0, &[2]));
    // Writing into stream 3 from an operator that reads stream 0 is fine.
    assert!(!stream_reaches_any(&edges(), 4, 3, &[0]));
    // A stream reaches itself.
    assert!(stream_reaches_any(&edges(), 4, 2, &[2]));
    assert!(!stream_reaches_any(&edges(), 4, 2, &[9]));
}

#[test]
fn collection_edges_keep_retractions_away_from_deduplication() {
    let retracting = CollectionStreams { stream: 0, retract_mode: true, edge_output: Some(1) };
    assert_eq!(check_collection_edges(&edges(), 4, &[retracting], &[3]), Ok(()));
    assert_eq!(
        check_collection_edges(&edges(), 4, &[retracting], &[2]),
        Err(CollectionEdgeError::RetractionsReachDeduplicate)
    );
    let upsert_on_changelog = CollectionStreams { stream: 2, retract_mode: false, edge_output: None };
    assert_eq!(
        check_collection_edges(&edges(), 4, &[upsert_on_changelog], &[]),
        Err(CollectionEdgeError::ChangelogInputNeedsRetract)
    );
}
