use highwater::views::{check_view_operator, check_view_rows, snapshot_consistency};
use highwater::views::{
    check_view_operators, join_shared_cut, materialize, SharedCutError, ViewError,
};

// Each change is the row identity (its key and value as JSON) and its weight.
fn change(identity: &str, diff: i64) -> (String, i64) {
    (identity.to_owned(), diff)
}

#[test]
fn materialization_retracts_old_rows_and_preserves_multiplicity() {
    let changes = vec![
        change(r#"["a",{"total":1}]"#, 1),
        change(r#"["a",{"total":1}]"#, -1),
        change(r#"["a",{"total":2}]"#, 1),
        change(r#"["a",{"total":2}]"#, 1),
    ];
    let rows = materialize(&changes).unwrap();
    assert_eq!(rows.len(), 1);
    // The row is named by its first change, which carries its value.
    assert_eq!(changes[rows[0].0].0, r#"["a",{"total":2}]"#);
    assert_eq!(rows[0].1, 2);
    assert_eq!(
        materialize(&[change(r#"["a",1]"#, -1)]),
        Err(ViewError::UnmatchedRetraction)
    );
}

#[test]
fn materialized_rows_come_in_identity_order() {
    let changes = vec![change("c", 1), change("a", 2), change("b", 1), change("a", -1), change("c", 3)];
    assert_eq!(materialize(&changes).unwrap(), vec![(1, 1), (2, 1), (0, 4)]);
    assert_eq!(materialize(&[]).unwrap(), vec![]);
    assert_eq!(
        materialize(&[change("a", i64::MAX), change("a", 1)]),
        Err(ViewError::Overflow)
    );
}

#[test]
fn snapshots_name_a_bounded_set_of_operators() {
    assert_eq!(check_view_operators(&vec!["a".to_owned()]), Ok(()));
    assert_eq!(check_view_operators(&vec![]), Err(ViewError::OperatorCount));
    let many: Vec<String> = (0..33).map(|i| format!("op{i}")).collect();
    assert_eq!(check_view_operators(&many), Err(ViewError::OperatorCount));
    assert_eq!(
        check_view_operators(&vec!["a".to_owned(), "a".to_owned()]),
        Err(ViewError::InvalidOperators)
    );
    assert_eq!(
        check_view_operators(&vec![" ".to_owned()]),
        Err(ViewError::InvalidOperators)
    );
}

#[test]
fn multi_view_snapshots_share_one_input_cut() {
    let cut = join_shared_cut(None, "orders".to_owned(), true, 7).unwrap();
    assert_eq!(cut, ("orders".to_owned(), 7));
    assert_eq!(
        join_shared_cut(Some(cut.clone()), "refunds".to_owned(), true, 7),
        Err(SharedCutError::DifferentStream)
    );
    assert_eq!(
        join_shared_cut(Some(cut.clone()), "orders".to_owned(), false, 7),
        Err(SharedCutError::InactiveFilter)
    );
    assert_eq!(
        join_shared_cut(Some(cut.clone()), "orders".to_owned(), true, 8),
        Err(SharedCutError::UnequalCoverage)
    );
    assert_eq!(join_shared_cut(Some(cut), "orders".to_owned(), true, 7), Ok(("orders".to_owned(), 7)));
}

#[test]
fn capture_rejects_invalid_and_ambiguous_operator_sets() {
    assert_eq!(check_view_operators(&vec![]), Err(ViewError::OperatorCount));
    assert_eq!(
        check_view_operators(&vec!["same".to_owned(), "same".to_owned()]),
        Err(ViewError::InvalidOperators)
    );
    assert_eq!(check_view_operator(false, 0, false, false), Err(ViewError::UnknownOperator));
    // Two active filters over one stream with equal coverage share an input cut.
    assert_eq!(check_view_operator(false, 1, true, true), Ok(()));
    let cut = join_shared_cut(None, "source".to_owned(), true, 3).unwrap();
    assert_eq!(join_shared_cut(Some(cut.clone()), "source".to_owned(), true, 3).map(|c| c.1), Ok(3));
    assert_eq!(snapshot_consistency(2), "shared_input_cut");
    assert_eq!(
        join_shared_cut(Some(cut.clone()), "source".to_owned(), true, 2),
        Err(SharedCutError::UnequalCoverage)
    );
    assert_eq!(
        join_shared_cut(Some(cut), "another-source".to_owned(), true, 3),
        Err(SharedCutError::DifferentStream)
    );
    assert_eq!(check_view_operator(false, 2, false, true), Err(ViewError::AmbiguousOperator));
}

#[test]
fn snapshots_refuse_processes_and_oversized_views() {
    assert_eq!(check_view_operator(true, 1, false, false), Err(ViewError::ProcessOutput));
    assert_eq!(check_view_operator(false, 1, true, false), Err(ViewError::FilterRequired));
    assert_eq!(check_view_operator(false, 1, false, false), Ok(()));
    assert_eq!(snapshot_consistency(1), "operator_output_cut");
    assert_eq!(check_view_rows(10_000), Ok(()));
    assert_eq!(check_view_rows(10_001), Err(ViewError::TooManyRows));
}
