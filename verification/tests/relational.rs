use std::collections::BTreeMap;
use highwater::relational::names_ok;
use highwater::relational::{winner_deltas, WinnerDelta};
use highwater::document::{JsonNumber, JsonValue};
use highwater::relational::{
    candidate_prefix, counted_row_update, maintained_prefix, normalize_step, project,
    relational_key, scalar_sort, state_prefix, winner_counts, CollectionMode, CountError,
    NormalizeError, NormalizePlan, RelationalKind, RelationalSpec, RelationalSpecError,
    ScalarSortError, SortDirection, SortKind,
};
use highwater::streaming::ChangeKind;

fn integer(value: i64) -> JsonValue {
    JsonValue::Number(JsonNumber {
        float_bits: Some((value as f64).to_bits()),
        integer_magnitude: Some(value.unsigned_abs()),
    })
}

fn unsigned(value: u64) -> JsonValue {
    JsonValue::Number(JsonNumber {
        float_bits: Some((value as f64).to_bits()),
        integer_magnitude: Some(value),
    })
}

fn float(value: f64) -> JsonValue {
    JsonValue::Number(JsonNumber {
        float_bits: Some(value.to_bits()),
        integer_magnitude: None,
    })
}

fn text(value: &str) -> JsonValue {
    JsonValue::String(value.to_owned())
}

#[test]
fn ordered_scalar_encoding_matches_comparisons() {
    let groups = vec![
        vec![integer(-20), integer(-1), integer(0), float(0.5), integer(17)],
        vec![text(""), text("a"), text("aa"), text("b"), text("é")],
        vec![JsonValue::Bool(false), JsonValue::Bool(true)],
    ];
    for values in &groups {
        for direction in [SortDirection::Asc, SortDirection::Desc] {
            let count = values.len();
            // Each value is tagged with its position; the null gets the last tag.
            let mut encoded_values = values
                .iter()
                .enumerate()
                .map(|(position, v)| (scalar_sort(v, direction).unwrap().0, position))
                .collect::<Vec<_>>();
            encoded_values.push((scalar_sort(&JsonValue::Null, direction).unwrap().0, count));
            encoded_values.sort_by(|a, b| a.0.cmp(&b.0));
            let mut expected = (0..count).collect::<Vec<_>>();
            if direction == SortDirection::Desc {
                expected.reverse();
            }
            expected.push(count);
            assert_eq!(
                encoded_values
                    .into_iter()
                    .map(|(_, v)| v)
                    .collect::<Vec<_>>(),
                expected
            );
        }
    }
    assert!(scalar_sort(&unsigned(9_007_199_254_740_993_u64), SortDirection::Asc).is_err());
    assert!(scalar_sort(&JsonValue::Array(Vec::new()), SortDirection::Asc).is_err());
    assert_eq!(
        scalar_sort(&float(-0.0), SortDirection::Asc).unwrap().0,
        scalar_sort(&integer(0), SortDirection::Asc).unwrap().0
    );
}

#[test]
fn scalar_sort_texts_and_kinds() {
    assert_eq!(
        scalar_sort(&JsonValue::Null, SortDirection::Asc).unwrap(),
        ("1".to_owned(), None)
    );
    assert_eq!(
        scalar_sort(&JsonValue::Bool(true), SortDirection::Asc).unwrap(),
        ("01".to_owned(), Some(SortKind::Bool))
    );
    assert_eq!(
        scalar_sort(&JsonValue::Bool(true), SortDirection::Desc).unwrap(),
        ("0e".to_owned(), Some(SortKind::Bool))
    );
    assert_eq!(
        scalar_sort(&text("a"), SortDirection::Asc).unwrap(),
        ("061!".to_owned(), Some(SortKind::String))
    );
    assert_eq!(
        scalar_sort(&text("a"), SortDirection::Desc).unwrap(),
        ("09e~".to_owned(), Some(SortKind::String))
    );
    assert_eq!(
        scalar_sort(&integer(0), SortDirection::Asc).unwrap(),
        ("08000000000000000".to_owned(), Some(SortKind::Number))
    );
    assert_eq!(
        scalar_sort(&float(f64::INFINITY), SortDirection::Asc),
        Err(ScalarSortError::UnsafeNumber)
    );
    let no_float = JsonValue::Number(JsonNumber {
        float_bits: None,
        integer_magnitude: None,
    });
    assert_eq!(
        scalar_sort(&no_float, SortDirection::Asc),
        Err(ScalarSortError::InvalidNumber)
    );
    assert_eq!(
        scalar_sort(&JsonValue::Object(Vec::new()), SortDirection::Desc),
        Err(ScalarSortError::NotScalar)
    );
    // 2^53 itself is still exact.
    assert!(scalar_sort(&unsigned(9_007_199_254_740_992_u64), SortDirection::Asc).is_ok());
}

fn spec(kind: RelationalKind, mode: CollectionMode) -> RelationalSpec {
    RelationalSpec {
        operator_id: "leaders".to_owned(),
        stream: "scores".to_owned(),
        kind,
        input_mode: mode,
        primary_key: vec!["id".to_owned()],
        partition_by: Vec::new(),
        order_by: Vec::new(),
        n: None,
    }
}

#[test]
fn collection_declarations_are_validated() {
    assert_eq!(spec(RelationalKind::Normalize, CollectionMode::Upsert).validate(), Ok(()));
    let mut blank = spec(RelationalKind::Normalize, CollectionMode::Upsert);
    blank.stream = " ".to_owned();
    assert_eq!(blank.validate(), Err(RelationalSpecError::EmptyIdentifier));
    let mut repeated = spec(RelationalKind::Normalize, CollectionMode::Upsert);
    repeated.primary_key = vec!["id".to_owned(), "id".to_owned()];
    assert_eq!(repeated.validate(), Err(RelationalSpecError::InvalidKeyFields));
    let mut unkeyed = spec(RelationalKind::TopN, CollectionMode::Upsert);
    unkeyed.primary_key = Vec::new();
    assert_eq!(unkeyed.validate(), Err(RelationalSpecError::UpsertWithoutPrimaryKey));
    assert_eq!(
        spec(RelationalKind::Normalize, CollectionMode::Append).validate(),
        Err(RelationalSpecError::InvalidNormalize)
    );
    let mut top = spec(RelationalKind::TopN, CollectionMode::Retract);
    top.n = Some(3);
    assert_eq!(top.validate(), Err(RelationalSpecError::InvalidTopN));
    top.order_by = vec![("score".to_owned(), SortDirection::Desc), (" ".to_owned(), SortDirection::Asc)];
    assert_eq!(top.validate(), Err(RelationalSpecError::InvalidSortFields));
    top.order_by = vec![("score".to_owned(), SortDirection::Desc)];
    assert_eq!(top.validate(), Ok(()));
    top.n = Some(10_001);
    assert_eq!(top.validate(), Err(RelationalSpecError::InvalidTopN));
}

#[test]
fn collection_keys_use_encoded_identifiers() {
    assert_eq!(relational_key("top"), "relational/dG9w");
    assert_eq!(state_prefix("top", "primary"), "collection/dG9w/primary/");
    assert_eq!(maintained_prefix("top"), "collection/dG9w/output/");
    let mut top = spec(RelationalKind::TopN, CollectionMode::Retract);
    top.operator_id = "top".to_owned();
    assert_eq!(candidate_prefix(&top, None), "collection/dG9w/ordered//");
    assert_eq!(candidate_prefix(&top, Some("a")), "collection/dG9w/ordered/YQ/");
}

#[test]
fn projection_reports_the_first_missing_field() {
    let row = JsonValue::Object(vec![
        ("id".to_owned(), integer(7)),
        (
            "customer".to_owned(),
            JsonValue::Object(vec![("name".to_owned(), text("ada"))]),
        ),
    ]);
    let values = project(&row, &["customer.name".to_owned(), "id".to_owned()]).unwrap();
    assert_eq!(values.len(), 2);
    assert!(matches!(values[0], JsonValue::String(s) if s == "ada"));
    assert_eq!(
        project(&row, &["id".to_owned(), "missing".to_owned(), "other".to_owned()]).err(),
        Some("missing".to_owned())
    );
}

#[test]
fn multiplicities_count_insertions_and_retractions() {
    assert_eq!(counted_row_update(None, 2), Ok(Some(2)));
    assert_eq!(counted_row_update(Some(2), -2), Ok(None));
    assert_eq!(counted_row_update(Some(1), -2), Err(CountError::UnmatchedRetraction));
    assert_eq!(counted_row_update(Some(i64::MAX), 1), Err(CountError::Overflow));
    // A retraction undoes the insertion it matches.
    let inserted = counted_row_update(Some(3), 4).unwrap();
    assert_eq!(counted_row_update(inserted, -4), Ok(Some(3)));
}

#[test]
fn top_n_keeps_exactly_n_copies() {
    assert_eq!(winner_counts(&[1, 3, 2], 3), vec![1, 2]);
    assert_eq!(winner_counts(&[1, 1], 5), vec![1, 1]);
    assert_eq!(winner_counts(&[4], 2), vec![2]);
    assert!(winner_counts(&[], 2).is_empty());
}

#[test]
fn normalization_follows_the_collection_mode() {
    assert_eq!(
        normalize_step(CollectionMode::Append, ChangeKind::Delete, false, None),
        Err(NormalizeError::AppendAcceptsOnlyInserts)
    );
    assert_eq!(
        normalize_step(CollectionMode::Retract, ChangeKind::Upsert, true, None),
        Err(NormalizeError::RetractRejectsUpsert)
    );
    assert_eq!(
        normalize_step(CollectionMode::Retract, ChangeKind::Delete, false, None),
        Ok(NormalizePlan::Pass(-1))
    );
    assert_eq!(
        normalize_step(CollectionMode::Upsert, ChangeKind::UpdateBefore, true, None),
        Err(NormalizeError::UpsertRejectsUpdateBefore)
    );
    assert_eq!(
        normalize_step(CollectionMode::Upsert, ChangeKind::Delete, true, None),
        Err(NormalizeError::DeleteOfUnknownKey)
    );
    assert_eq!(
        normalize_step(CollectionMode::Upsert, ChangeKind::Delete, true, Some(false)),
        Ok(NormalizePlan::RetractPrior)
    );
    assert_eq!(
        normalize_step(CollectionMode::Upsert, ChangeKind::Upsert, true, Some(true)),
        Ok(NormalizePlan::Unchanged)
    );
    assert_eq!(
        normalize_step(CollectionMode::Upsert, ChangeKind::Upsert, true, Some(false)),
        Ok(NormalizePlan::Replace { retract_prior: true })
    );
    assert_eq!(
        normalize_step(CollectionMode::Upsert, ChangeKind::Insert, true, None),
        Ok(NormalizePlan::Replace { retract_prior: false })
    );
    assert_eq!(
        normalize_step(CollectionMode::Retract, ChangeKind::Insert, true, Some(true)),
        Err(NormalizeError::DuplicatePrimaryKey)
    );
    assert_eq!(
        normalize_step(CollectionMode::Retract, ChangeKind::Insert, true, None),
        Ok(NormalizePlan::Insert)
    );
    assert_eq!(
        normalize_step(CollectionMode::Retract, ChangeKind::Delete, true, Some(true)),
        Ok(NormalizePlan::RetractPrior)
    );
    assert_eq!(
        normalize_step(CollectionMode::Retract, ChangeKind::UpdateBefore, true, Some(false)),
        Err(NormalizeError::UnmatchedRetraction)
    );
}

#[test]
fn winner_deltas_retract_shrunk_rows_then_insert_grown_ones() {
    let old = vec![("a".to_owned(), 2), ("b".to_owned(), 1), ("d".to_owned(), 1)];
    let new = vec![("a".to_owned(), 1), ("c".to_owned(), 2), ("d".to_owned(), 1)];
    assert_eq!(
        winner_deltas(&old, &new),
        vec![
            WinnerDelta { from_new: false, index: 0, diff: -1 },
            WinnerDelta { from_new: false, index: 1, diff: -1 },
            WinnerDelta { from_new: true, index: 1, diff: 2 },
        ]
    );
    assert_eq!(winner_deltas(&new, &new), Vec::<WinnerDelta>::new());
    assert_eq!(
        winner_deltas(&[], &old),
        vec![
            WinnerDelta { from_new: true, index: 0, diff: 2 },
            WinnerDelta { from_new: true, index: 1, diff: 1 },
            WinnerDelta { from_new: true, index: 2, diff: 1 },
        ]
    );
}

#[test]
fn field_names_must_be_non_blank() {
    assert!(names_ok(&vec!["a".to_owned(), "b.c".to_owned()]));
    assert!(names_ok(&vec![]));
    assert!(!names_ok(&vec!["a".to_owned(), "  ".to_owned()]));
    assert!(!names_ok(&vec!["a".to_owned(), "a".to_owned()]));
}

#[test]
fn additions_are_the_changes_with_positive_weight() {
    assert!(ChangeKind::Insert.is_addition());
    assert!(ChangeKind::Upsert.is_addition());
    assert!(!ChangeKind::Delete.is_addition());
}

#[test]
fn retractable_top_n_matches_recomputation_over_generated_upserts() {
    let mut expected: BTreeMap<u64, (u64, &str)> = BTreeMap::new();
    let mut maintained: BTreeMap<&str, BTreeMap<String, i64>> = BTreeMap::new();
    let mut winners: BTreeMap<&str, Vec<(String, i64)>> = BTreeMap::new();
    let mut seed = 741_u64;
    for sequence in 1..=350 {
        seed = seed.wrapping_mul(6364136223846793005).wrapping_add(1);
        let id = (seed >> 32) % 25;
        let delete = seed % 5 == 0 && expected.contains_key(&id);
        if delete {
            expected.remove(&id);
        } else {
            let group = if seed % 3 == 0 { "a" } else { "b" };
            expected.insert(id, ((seed >> 16) % 13, group));
        }
        for group in ["a", "b"] {
            let mut oracle: Vec<(u64, u64)> = expected
                .iter()
                .filter(|(_, (_, g))| *g == group)
                .map(|(id, (score, _))| (*id, *score))
                .collect();
            oracle.sort_by(|a, b| b.1.cmp(&a.1).then(a.0.cmp(&b.0)));
            let counts: Vec<i64> = oracle.iter().map(|_| 1).collect();
            let taken = winner_counts(&counts, 3);
            let new: Vec<(String, i64)> = oracle
                .iter()
                .zip(taken.iter())
                .map(|((id, _), count)| (id.to_string(), *count))
                .collect();
            let old = winners.remove(group).unwrap_or_default();
            let rows = maintained.entry(group).or_default();
            for delta in winner_deltas(&old, &new) {
                let key = if delta.from_new { &new[delta.index].0 } else { &old[delta.index].0 };
                let count = rows.entry(key.clone()).or_insert(0);
                *count += delta.diff;
                assert!(*count >= 0);
                if *count == 0 {
                    rows.remove(key);
                }
            }
            let mut top: Vec<String> = oracle.iter().take(3).map(|(id, _)| id.to_string()).collect();
            top.sort();
            let actual: Vec<String> = rows.keys().cloned().collect();
            assert_eq!(actual, top, "at input {sequence} group {group}");
            assert!(rows.values().all(|count| *count == 1));
            winners.insert(group, new);
        }
    }
}
