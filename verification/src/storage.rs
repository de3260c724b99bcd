//! The replay rules of the sharded write-ahead log when the store opens: how many shards
//! the durable state was written with, and which logged records are applied, in what order.
use vstd::prelude::*;

verus! {

/// Why the write-ahead log cannot be replayed.
#[derive(Debug, Clone, Copy, PartialEq, Eq, Structural)]
pub enum WalReplayError {
    /// No log shard was configured.
    NoLogShards,
    /// The configured shard count differs from the one the durable state was written with.
    ShardCountMismatch,
    /// A logged record names another shard than the one it is stored in.
    WrongShard,
    /// The records do not continue the applied sequence one by one; the sequence that is
    /// missing is given.
    MissingSequence(u64),
    /// A record read back from the remote journal does not match its journal position.
    RemoteMismatch,
}

/// The configured number of log shards must be positive and, where the durable state has
/// shard directories already, equal to their number.
pub fn check_log_shard_count(existing: usize, configured: usize) -> (r: Result<(), WalReplayError>)
    ensures
        r == (if configured == 0 {
            Err(WalReplayError::NoLogShards)
        } else if existing != 0 && existing != configured {
            Err(WalReplayError::ShardCountMismatch)
        } else {
            Ok(())
        }),
{
    if configured == 0 {
        Err(WalReplayError::NoLogShards)
    } else if existing != 0 && existing != configured {
        Err(WalReplayError::ShardCountMismatch)
    } else {
        Ok(())
    }
}

/// The logged records past the applied sequence, each as its position among the stored
/// records, its shard and its sequence, in the order they were read.
pub open spec fn unapplied(stored: Seq<(u32, u64)>, applied: u64, n: int) -> Seq<(usize, u32, u64)>
    decreases n,
{
    if n <= 0 {
        Seq::empty()
    } else if stored[n - 1].1 > applied {
        unapplied(stored, applied, n - 1).push(((n - 1) as usize, stored[n - 1].0, stored[n - 1].1))
    } else {
        unapplied(stored, applied, n - 1)
    }
}

/// `x` placed after every record whose sequence is not above its own.
pub open spec fn insert_by_sequence(s: Seq<(usize, u32, u64)>, x: (usize, u32, u64)) -> Seq<
    (usize, u32, u64),
>
    decreases s.len(),
{
    if s.len() == 0 {
        seq![x]
    } else if s.last().2 <= x.2 {
        s.push(x)
    } else {
        insert_by_sequence(s.drop_last(), x).push(s.last())
    }
}

/// The records in order of sequence; records of equal sequence keep their order.
pub open spec fn by_sequence(s: Seq<(usize, u32, u64)>) -> Seq<(usize, u32, u64)>
    decreases s.len(),
{
    if s.len() == 0 {
        s
    } else {
        insert_by_sequence(by_sequence(s.drop_last()), s.last())
    }
}

/// Walking the ordered records from position `i`: each must lie in `shard` and carry the
/// sequence after the one before it.
pub open spec fn replay_walk(s: Seq<(usize, u32, u64)>, shard: u32, applied: u64, i: int) -> Result<
    Seq<usize>,
    WalReplayError,
>
    decreases s.len() - i,
{
    if i < 0 || i >= s.len() {
        Ok(Seq::empty())
    } else if s[i].1 != shard {
        Err(WalReplayError::WrongShard)
    } else if s[i].2 != applied + i + 1 {
        Err(WalReplayError::MissingSequence((applied + i + 1) as u64))
    } else {
        match replay_walk(s, shard, applied, i + 1) {
            Ok(rest) => Ok(seq![s[i].0] + rest),
            Err(e) => Err(e),
        }
    }
}

/// The records of a shard's local log to apply when the store opens, as positions among
/// the stored records in the order to apply them: the records past the applied sequence,
/// ordered by sequence, which must all lie in the shard and continue the applied sequence
/// one by one.
pub open spec fn spec_plan_wal_replay(shard: u32, applied: u64, stored: Seq<(u32, u64)>) -> Result<
    Seq<usize>,
    WalReplayError,
> {
    replay_walk(by_sequence(unapplied(stored, applied, stored.len() as int)), shard, applied, 0)
}

proof fn lemma_insert_at(s: Seq<(usize, u32, u64)>, x: (usize, u32, u64), p: int)
    requires
        0 <= p <= s.len(),
        forall|j: int| p <= j < s.len() ==> s[j].2 > x.2,
        p == 0 || s[p - 1].2 <= x.2,
    ensures
        insert_by_sequence(s, x) == s.insert(p, x),
    decreases s.len(),
{
    if s.len() == 0 {
        assert(s.insert(p, x) =~= seq![x]);
    } else if p == s.len() {
        assert(s.insert(p, x) =~= s.push(x));
    } else {
        lemma_insert_at(s.drop_last(), x, p);
        assert(s.insert(p, x) =~= s.drop_last().insert(p, x).push(s.last()));
    }
}

proof fn lemma_unapplied_len(stored: Seq<(u32, u64)>, applied: u64, n: int)
    requires
        0 <= n <= stored.len(),
    ensures
        unapplied(stored, applied, n).len() <= n,
    decreases n,
{
    if n > 0 {
        lemma_unapplied_len(stored, applied, n - 1);
    }
}

proof fn lemma_insert_len(s: Seq<(usize, u32, u64)>, x: (usize, u32, u64))
    ensures
        insert_by_sequence(s, x).len() == s.len() + 1,
    decreases s.len(),
{
    if s.len() > 0 && s.last().2 > x.2 {
        lemma_insert_len(s.drop_last(), x);
    }
}

/// Plans the replay of one shard's local log; see `spec_plan_wal_replay`. The shard's
/// sequence after the replay is the applied one plus the number of records applied.
pub fn plan_wal_replay(shard: u32, applied: u64, stored: &[(u32, u64)]) -> (r: Result<
    Vec<usize>,
    WalReplayError,
>)
    requires
        applied + stored@.len() <= u64::MAX,
    ensures
        match r {
            Ok(order) => spec_plan_wal_replay(shard, applied, stored@) == Ok::<
                Seq<usize>,
                WalReplayError,
            >(order@),
            Err(e) => spec_plan_wal_replay(shard, applied, stored@) == Err::<
                Seq<usize>,
                WalReplayError,
            >(e),
        },
{
    let mut sorted: Vec<(usize, u32, u64)> = Vec::new();
    let mut i: usize = 0;
    while i < stored.len()
        invariant
            i <= stored@.len(),
            sorted@ == by_sequence(unapplied(stored@, applied, i as int)),
            sorted@.len() <= i,
        decreases stored.len() - i,
    {
        let (record_shard, sequence) = stored[i];
        if sequence > applied {
            let x = (i, record_shard, sequence);
            let mut p: usize = sorted.len();
            while p > 0 && sorted[p - 1].2 > sequence
                invariant
                    p <= sorted@.len(),
                    x.2 == sequence,
                    forall|j: int| p <= j < sorted@.len() ==> sorted@[j].2 > x.2,
                decreases p,
            {
                p = p - 1;
            }
            proof {
                lemma_insert_at(sorted@, x, p as int);
                let k = unapplied(stored@, applied, i + 1);
                assert(k == unapplied(stored@, applied, i as int).push(x));
                assert(k.drop_last() =~= unapplied(stored@, applied, i as int));
            }
            sorted.insert(p, x);
        }
        i = i + 1;
    }
    let mut order: Vec<usize> = Vec::new();
    let mut sequence: u64 = applied;
    let mut j: usize = 0;
    proof {
        lemma_unapplied_len(stored@, applied, stored@.len() as int);
    }
    while j < sorted.len()
        invariant
            j <= sorted@.len(),
            sorted@.len() <= stored@.len(),
            applied + stored@.len() <= u64::MAX,
            sequence == applied + j,
            order@.len() == j,
            match replay_walk(sorted@, shard, applied, j as int) {
                Ok(rest) => spec_plan_wal_replay(shard, applied, stored@) == Ok::<
                    Seq<usize>,
                    WalReplayError,
                >(order@ + rest),
                Err(e) => spec_plan_wal_replay(shard, applied, stored@) == Err::<
                    Seq<usize>,
                    WalReplayError,
                >(e),
            },
        decreases sorted.len() - j,
    {
        let (index, record_shard, record_sequence) = sorted[j];
        if record_shard != shard {
            return Err(WalReplayError::WrongShard);
        }
        if record_sequence != sequence + 1 {
            return Err(WalReplayError::MissingSequence(sequence + 1));
        }
        proof {
            let rest = replay_walk(sorted@, shard, applied, j + 1);
            if let Ok(tail) = rest {
                assert(order@.push(index) + tail =~= order@ + (seq![index] + tail));
            }
        }
        order.push(index);
        sequence = record_sequence;
        j = j + 1;
    }
    proof {
        assert(order@ + Seq::<usize>::empty() =~= order@);
    }
    Ok(order)
}

/// A record read back from the remote journal at `position` must be the shard's record with
/// that sequence.
pub open spec fn remote_record_ok(shard: u32, record: (u32, u64, u64)) -> bool {
    record.0 == shard && record.1 == record.2
}

/// The shard's sequence after replaying the records read back from its remote journal,
/// each given as its shard, its sequence and its journal position: the last record's
/// sequence, or the applied one when there is none; refused when any record does not match
/// its position.
pub fn check_remote_replay(shard: u32, applied: u64, records: &[(u32, u64, u64)]) -> (r: Result<
    u64,
    WalReplayError,
>)
    ensures
        r is Err <==> exists|i: int|
            0 <= i < records@.len() && !remote_record_ok(shard, #[trigger] records@[i]),
        r is Err ==> r == Err::<u64, WalReplayError>(WalReplayError::RemoteMismatch),
        r is Ok ==> r == Ok::<u64, WalReplayError>(
            if records@.len() == 0 { applied } else { records@.last().1 },
        ),
{
    let mut sequence = applied;
    let mut i: usize = 0;
    while i < records.len()
        invariant
            i <= records@.len(),
            forall|j: int| 0 <= j < i ==> remote_record_ok(shard, #[trigger] records@[j]),
            sequence == (if i == 0 { applied } else { records@[i - 1].1 }),
        decreases records.len() - i,
    {
        let (record_shard, record_sequence, position) = records[i];
        if record_shard != shard || record_sequence != position {
            assert(!remote_record_ok(shard, records@[i as int]));
            return Err(WalReplayError::RemoteMismatch);
        }
        sequence = record_sequence;
        i = i + 1;
    }
    Ok(sequence)
}

/// A replay that succeeds applies the records of the shard in the order of their
/// sequences, which run one by one from just past the applied sequence.
pub proof fn law_replay_applies_consecutive_sequences(
    shard: u32,
    applied: u64,
    stored: Seq<(u32, u64)>,
    order: Seq<usize>,
    k: int,
)
    requires
        stored.len() <= usize::MAX,
        spec_plan_wal_replay(shard, applied, stored) == Ok::<Seq<usize>, WalReplayError>(order),
        0 <= k < order.len(),
    ensures
        0 <= order[k] < stored.len(),
        stored[order[k] as int].0 == shard,
        stored[order[k] as int].1 == applied + k + 1,
{
    let s = by_sequence(unapplied(stored, applied, stored.len() as int));
    lemma_walk_entries(s, shard, applied, 0, order, k);
    lemma_by_sequence_members(unapplied(stored, applied, stored.len() as int), k);
    lemma_unapplied_members(stored, applied, stored.len() as int);
}

proof fn lemma_walk_entries(
    s: Seq<(usize, u32, u64)>,
    shard: u32,
    applied: u64,
    i: int,
    out: Seq<usize>,
    k: int,
)
    requires
        0 <= i,
        replay_walk(s, shard, applied, i) == Ok::<Seq<usize>, WalReplayError>(out),
        0 <= k < out.len(),
    ensures
        i + k < s.len(),
        out[k] == s[i + k].0,
        s[i + k].1 == shard,
        s[i + k].2 == applied + i + k + 1,
    decreases s.len() - i,
{
    if i < s.len() {
        let rest = replay_walk(s, shard, applied, i + 1);
        if k > 0 {
            lemma_walk_entries(s, shard, applied, i + 1, rest->Ok_0, k - 1);
        }
    }
}

pub open spec fn has_entry(s: Seq<(usize, u32, u64)>, x: (usize, u32, u64)) -> bool {
    exists|j: int| 0 <= j < s.len() && s[j] == x
}

proof fn lemma_insert_members(s: Seq<(usize, u32, u64)>, x: (usize, u32, u64))
    ensures
        forall|j: int| 0 <= j < insert_by_sequence(s, x).len() ==> (#[trigger] insert_by_sequence(s, x)[j] == x
            || has_entry(s, insert_by_sequence(s, x)[j])),
    decreases s.len(),
{
    lemma_insert_len(s, x);
    if s.len() > 0 && s.last().2 > x.2 {
        lemma_insert_members(s.drop_last(), x);
        let t = insert_by_sequence(s, x);
        assert forall|j: int| 0 <= j < t.len() implies (#[trigger] t[j] == x || has_entry(s, t[j])) by {
            if j == t.len() - 1 {
                assert(s[s.len() - 1] == t[j]);
            } else {
                let u = insert_by_sequence(s.drop_last(), x);
                assert(t[j] == u[j]);
                if u[j] != x {
                    let w = choose|w: int| 0 <= w < s.drop_last().len() && s.drop_last()[w] == u[j];
                    assert(s[w] == u[j]);
                }
            }
        }
    } else if s.len() > 0 {
        let t = insert_by_sequence(s, x);
        assert forall|j: int| 0 <= j < t.len() implies (#[trigger] t[j] == x || has_entry(s, t[j])) by {
            if j < s.len() {
                assert(t[j] == s[j]);
            }
        }
    }
}

proof fn lemma_by_sequence_members_all(s: Seq<(usize, u32, u64)>)
    ensures
        by_sequence(s).len() == s.len(),
        forall|j: int| 0 <= j < by_sequence(s).len() ==> has_entry(s, #[trigger] by_sequence(s)[j]),
    decreases s.len(),
{
    if s.len() > 0 {
        lemma_by_sequence_members_all(s.drop_last());
        let b = by_sequence(s.drop_last());
        lemma_insert_members(b, s.last());
        lemma_insert_len(b, s.last());
        let t = by_sequence(s);
        assert forall|j: int| 0 <= j < t.len() implies has_entry(s, #[trigger] t[j]) by {
            if t[j] == s.last() {
                assert(s[s.len() - 1] == t[j]);
            } else {
                let w = choose|w: int| 0 <= w < b.len() && b[w] == t[j];
                let v = choose|v: int| 0 <= v < s.drop_last().len() && s.drop_last()[v] == b[w];
                assert(s[v] == t[j]);
            }
        }
    }
}

proof fn lemma_by_sequence_members(s: Seq<(usize, u32, u64)>, k: int)
    ensures
        0 <= k < by_sequence(s).len() ==> has_entry(s, by_sequence(s)[k]),
{
    lemma_by_sequence_members_all(s);
}

proof fn lemma_unapplied_members(stored: Seq<(u32, u64)>, applied: u64, n: int)
    requires
        0 <= n <= stored.len(),
        stored.len() <= usize::MAX,
    ensures
        forall|x: (usize, u32, u64)| #[trigger] has_entry(unapplied(stored, applied, n), x) ==> (
            x.0 < n && stored[x.0 as int] == (x.1, x.2)),
    decreases n,
{
    if n > 0 {
        lemma_unapplied_members(stored, applied, n - 1);
        let u = unapplied(stored, applied, n);
        let v = unapplied(stored, applied, n - 1);
        assert forall|x: (usize, u32, u64)| #[trigger] has_entry(u, x) implies (x.0 < n
            && stored[x.0 as int] == (x.1, x.2)) by {
            let j = choose|j: int| 0 <= j < u.len() && u[j] == x;
            if j < v.len() {
                assert(v[j] == x);
                assert(has_entry(v, x));
            } else {
                assert(u == v.push(((n - 1) as usize, stored[n - 1].0, stored[n - 1].1)));
            }
        }
    }
}

} // verus!
