//! Stream configuration vocabulary shared by operators and the ingestion path.
use vstd::prelude::*;
use crate::keyspace::{spec_ordered_f64_bits, ordered_f64_bits};

verus! {

/// What happens to a record that arrives after the stream watermark passed it.
#[derive(Debug, Clone, Copy, PartialEq, Eq, Structural)]
pub enum LatePolicy {
    Drop,
    SideOutput,
    Accept,
}

/// How a partition watermark advances.
#[derive(Debug, Clone, Copy, PartialEq, Eq, Structural)]
pub enum WatermarkMode {
    Bounded,
    Monotonic,
    SourceManaged,
}

/// The watermark mode a stream gets when its configuration names none.
pub fn default_watermark_mode() -> (mode: WatermarkMode)
    ensures
        mode == WatermarkMode::Bounded,
{
    WatermarkMode::Bounded
}

/// The role of one record in a changelog.
#[derive(Debug, Clone, Copy, PartialEq, Eq, Structural)]
pub enum ChangeKind {
    Insert,
    Upsert,
    UpdateBefore,
    UpdateAfter,
    Delete,
}

/// The multiplicity a change contributes: additions count once, retractions minus once.
pub open spec fn spec_weight(kind: ChangeKind) -> int {
    match kind {
        ChangeKind::Insert | ChangeKind::Upsert | ChangeKind::UpdateAfter => 1,
        ChangeKind::UpdateBefore | ChangeKind::Delete => -1,
    }
}

impl ChangeKind {
    pub fn weight(self) -> (w: i64)
        ensures
            w == spec_weight(self),
    {
        match self {
            ChangeKind::Insert | ChangeKind::Upsert | ChangeKind::UpdateAfter => 1,
            ChangeKind::UpdateBefore | ChangeKind::Delete => -1,
        }
    }

    pub fn is_addition(self) -> (b: bool)
        ensures
            b == (spec_weight(self) > 0),
    {
        self.weight() > 0
    }
}

/// The change kind a record gets when it names none.
pub fn default_change_kind() -> (kind: ChangeKind)
    ensures
        kind == ChangeKind::Upsert,
{
    ChangeKind::Upsert
}

/// Whether a temporal join keeps probes that find no version.
#[derive(Debug, Clone, Copy, PartialEq, Eq, Structural)]
pub enum TemporalJoinType {
    Inner,
    Left,
}

/// The kinds of interval join.
#[derive(Debug, Clone, Copy, PartialEq, Eq, Structural)]
pub enum IntervalJoinType {
    Inner,
}

/// What a window schedule computes over the records of one window.
#[derive(Debug, Clone, Copy, PartialEq, Eq, Structural)]
pub enum WindowAggregation {
    Count,
    Sum,
    Max,
}

/// The comparison a stream filter applies between a field and its operand.
#[derive(Debug, Clone, Copy, PartialEq, Eq, Structural)]
pub enum Comparison {
    Equal,
    NotEqual,
    GreaterThan,
    GreaterThanOrEqual,
    LessThan,
    LessThanOrEqual,
}

/// The aggregation a window schedule gets when it names none.
pub fn default_window_aggregation() -> (aggregation: WindowAggregation)
    ensures
        aggregation == WindowAggregation::Count,
{
    WindowAggregation::Count
}

/// The partition count a stream gets when its configuration names none.
pub fn default_partitions() -> (partitions: u32)
    ensures
        partitions == 1,
{
    1
}

/// The late policy a stream gets when its configuration names none.
pub fn default_late_policy() -> (policy: LatePolicy)
    ensures
        policy == LatePolicy::SideOutput,
{
    LatePolicy::SideOutput
}

/// One version of a keyed record, as a temporal join looks it up: the bit pattern of its
/// event time, its sequence, whether it adds the row (an insert or upsert) and whether its
/// event time is at or before the time being looked up.
#[derive(Debug, Clone, Copy, PartialEq, Eq, Structural)]
pub struct VersionStamp {
    pub event_time_bits: u64,
    pub sequence: u64,
    pub addition: bool,
    pub at_or_before: bool,
}

/// Versions are ordered by event time, in the total order of `f64`, then by sequence.
pub open spec fn version_le(a: VersionStamp, b: VersionStamp) -> bool {
    let ta = spec_ordered_f64_bits(a.event_time_bits);
    let tb = spec_ordered_f64_bits(b.event_time_bits);
    ta < tb || (ta == tb && a.sequence <= b.sequence)
}

/// Position `r` holds the latest version at or before the lookup time: no eligible version
/// orders after it, and no later position holds one that orders as high.
pub open spec fn is_latest_eligible(versions: Seq<VersionStamp>, r: int) -> bool {
    &&& 0 <= r < versions.len()
    &&& versions[r].at_or_before
    &&& forall|j: int| 0 <= j < versions.len() && versions[j].at_or_before
        ==> version_le(versions[j], versions[r])
    &&& forall|j: int| r < j < versions.len() && versions[j].at_or_before
        ==> !version_le(versions[r], versions[j])
}

pub open spec fn has_eligible(versions: Seq<VersionStamp>) -> bool {
    exists|j: int| 0 <= j < versions.len() && versions[j].at_or_before
}

fn version_le_exec(a: &VersionStamp, b: &VersionStamp) -> (le: bool)
    ensures
        le == version_le(*a, *b),
{
    let ta = ordered_f64_bits(a.event_time_bits);
    let tb = ordered_f64_bits(b.event_time_bits);
    ta < tb || (ta == tb && a.sequence <= b.sequence)
}

/// The version that a temporal join sees at a time: the latest one at or before it, and
/// only where that version adds the row; a deletion there hides the row. `None` also where
/// no version is at or before the time.
pub fn latest_version_as_of(versions: &[VersionStamp]) -> (found: Option<usize>)
    ensures
        match found {
            Some(r) => is_latest_eligible(versions@, r as int) && versions@[r as int].addition,
            None => !has_eligible(versions@) || exists|r: int|
                is_latest_eligible(versions@, r) && !versions@[r].addition,
        },
{
    let mut best: Option<usize> = None;
    let mut i: usize = 0;
    while i < versions.len()
        invariant
            i <= versions.len(),
            match best {
                Some(b) => is_latest_eligible(versions@.subrange(0, i as int), b as int),
                None => forall|j: int| 0 <= j < i ==> !versions@[j].at_or_before,
            },
        decreases versions.len() - i,
    {
        let ghost prefix = versions@.subrange(0, i as int);
        let ghost next = versions@.subrange(0, i + 1);
        if versions[i].at_or_before {
            match best {
                None => {
                    best = Some(i);
                    proof {
                        assert forall|j: int| 0 <= j < next.len() && next[j].at_or_before implies
                            version_le(next[j], next[i as int]) by {
                            assert(j == i);
                        }
                    }
                },
                Some(b) => {
                    if version_le_exec(&versions[b], &versions[i]) {
                        best = Some(i);
                        proof {
                            assert forall|j: int| 0 <= j < next.len() && next[j].at_or_before implies
                                version_le(next[j], next[i as int]) by {
                                if j < i {
                                    assert(prefix[j] == next[j]);
                                    assert(version_le(prefix[j], prefix[b as int]));
                                }
                            }
                        }
                    } else {
                        proof {
                            assert forall|j: int| 0 <= j < next.len() && next[j].at_or_before implies
                                version_le(next[j], next[b as int]) by {
                                if j < i {
                                    assert(prefix[j] == next[j]);
                                }
                            }
                            assert forall|j: int| b < j < next.len() && next[j].at_or_before implies
                                !version_le(next[b as int], next[j]) by {
                                if j < i {
                                    assert(prefix[j] == next[j]);
                                }
                            }
                        }
                    }
                },
            }
        } else {
            proof {
                match best {
                    Some(b) => {
                        assert forall|j: int| 0 <= j < next.len() && next[j].at_or_before implies
                            version_le(next[j], next[b as int]) by {
                            if j < i {
                                assert(prefix[j] == next[j]);
                            }
                        }
                        assert forall|j: int| b < j < next.len() && next[j].at_or_before implies
                            !version_le(next[b as int], next[j]) by {
                            if j < i {
                                assert(prefix[j] == next[j]);
                            }
                        }
                    },
                    None => {},
                }
            }
        }
        i = i + 1;
    }
    proof {
        assert(versions@.subrange(0, versions.len() as int) =~= versions@);
    }
    match best {
        Some(b) => if versions[b].addition {
            Some(b)
        } else {
            None
        },
        None => None,
    }
}

/// At most one position holds the latest eligible version, so the contract of
/// `latest_version_as_of` fixes its answer.
pub proof fn law_latest_version_is_unique(versions: Seq<VersionStamp>, r: int, s: int)
    requires
        is_latest_eligible(versions, r),
        is_latest_eligible(versions, s),
    ensures
        r == s,
{
    if r < s {
        assert(version_le(versions[r], versions[s]));
    } else if s < r {
        assert(version_le(versions[s], versions[r]));
    }
}

/// What one contribution does to a window's accumulator row in the output changelog.
#[derive(Debug, Clone, Copy, PartialEq, Eq, Structural)]
pub enum AccumulatorChange {
    /// The count fell to zero: the row leaves the output (a deletion of the previous row,
    /// where there was one) and its state is dropped.
    Removed { had_previous: bool },
    /// The row changes: its previous version is retracted and the new one added.
    Replaced,
    /// A window that had no row gets one.
    Added,
}

/// A retraction reached a window that holds no matching contribution.
#[derive(Debug, Clone, Copy, PartialEq, Eq, Structural)]
pub enum WindowCountError {
    UnmatchedRetraction,
}

/// Adds a record's weight to a window's count (zero where the window has no row yet).
pub fn window_count_step(previous: Option<i64>, weight: i64) -> (r: Result<(i64, AccumulatorChange), WindowCountError>)
    requires
        -1 <= weight <= 1,
        previous matches Some(c) ==> i64::MIN < c < i64::MAX,
    ensures
        ({
            let before: int = match previous {
                Some(c) => c as int,
                None => 0,
            };
            let count = before + weight;
            if count < 0 {
                r == Err::<(i64, AccumulatorChange), WindowCountError>(WindowCountError::UnmatchedRetraction)
            } else if count == 0 {
                r == Ok::<(i64, AccumulatorChange), WindowCountError>(
                    (0, AccumulatorChange::Removed { had_previous: previous is Some }),
                )
            } else if previous is Some {
                r == Ok::<(i64, AccumulatorChange), WindowCountError>((count as i64, AccumulatorChange::Replaced))
            } else {
                r == Ok::<(i64, AccumulatorChange), WindowCountError>((count as i64, AccumulatorChange::Added))
            }
        }),
{
    let before: i64 = match previous {
        Some(c) => c,
        None => 0,
    };
    let count = before + weight;
    if count < 0 {
        Err(WindowCountError::UnmatchedRetraction)
    } else if count == 0 {
        Ok((0, AccumulatorChange::Removed { had_previous: previous.is_some() }))
    } else if previous.is_some() {
        Ok((count, AccumulatorChange::Replaced))
    } else {
        Ok((count, AccumulatorChange::Added))
    }
}

/// The changes a window's changelog records for one accumulator change, in order.
pub open spec fn spec_accumulator_change_kinds(change: AccumulatorChange) -> Seq<ChangeKind> {
    match change {
        AccumulatorChange::Removed { had_previous } => if had_previous {
            seq![ChangeKind::Delete]
        } else {
            Seq::empty()
        },
        AccumulatorChange::Replaced => seq![ChangeKind::UpdateBefore, ChangeKind::UpdateAfter],
        AccumulatorChange::Added => seq![ChangeKind::Insert],
    }
}

pub fn accumulator_change_kinds(change: AccumulatorChange) -> (kinds: Vec<ChangeKind>)
    ensures
        kinds@ == spec_accumulator_change_kinds(change),
{
    match change {
        AccumulatorChange::Removed { had_previous } => if had_previous {
            vec![ChangeKind::Delete]
        } else {
            Vec::new()
        },
        AccumulatorChange::Replaced => vec![ChangeKind::UpdateBefore, ChangeKind::UpdateAfter],
        AccumulatorChange::Added => vec![ChangeKind::Insert],
    }
}

pub open spec fn total_weight(kinds: Seq<ChangeKind>) -> int
    decreases kinds.len(),
{
    if kinds.len() == 0 {
        0
    } else {
        spec_weight(kinds.last()) + total_weight(kinds.drop_last())
    }
}

/// A window's changelog stays consistent with its rows: the weights of the changes that one
/// contribution records add up to the change in the number of rows the window shows (one
/// after a change unless the row was removed, one before it where there was a row).
pub proof fn law_window_changelog_tracks_rows(change: AccumulatorChange)
    ensures
        total_weight(spec_accumulator_change_kinds(change)) == (match change {
            AccumulatorChange::Removed { .. } => 0int,
            _ => 1int,
        }) - (match change {
            AccumulatorChange::Removed { had_previous } => if had_previous { 1int } else { 0int },
            AccumulatorChange::Replaced => 1int,
            AccumulatorChange::Added => 0int,
        }),
{
    let kinds = spec_accumulator_change_kinds(change);
    reveal_with_fuel(total_weight, 3);
    match change {
        AccumulatorChange::Removed { had_previous } => {
            if had_previous {
                assert(kinds.drop_last() =~= Seq::<ChangeKind>::empty());
            }
        },
        AccumulatorChange::Replaced => {
            assert(kinds.drop_last() =~= seq![ChangeKind::UpdateBefore]);
            assert(kinds.drop_last().drop_last() =~= Seq::<ChangeKind>::empty());
        },
        AccumulatorChange::Added => {
            assert(kinds.drop_last() =~= Seq::<ChangeKind>::empty());
        },
    }
}

} // verus!
