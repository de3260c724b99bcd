//! The write buffer of a storage transaction: reads see the transaction's own writes over
//! what is stored, and commit turns the buffer into one batch of mutations.
use crate::text::{str_eq, bytes_lt};
use vstd::utf8::encode_utf8;
use vstd::prelude::*;

verus! {

pub open spec fn bytes_opt(value: Option<Vec<u8>>) -> Option<Seq<u8>> {
    match value {
        Some(v) => Some(v@),
        None => None,
    }
}

/// What the buffered writes say of each key they touched: the encoded value put there, or
/// `None` for a deletion. A later entry for a key overrides an earlier one.
pub open spec fn entries_map(entries: Seq<(String, Option<Vec<u8>>)>) -> Map<
    Seq<char>,
    Option<Seq<u8>>,
>
    decreases entries.len(),
{
    if entries.len() == 0 {
        Map::empty()
    } else {
        entries_map(entries.drop_last()).insert(
            entries.last().0@,
            bytes_opt(entries.last().1),
        )
    }
}

pub open spec fn keys_unique(entries: Seq<(String, Option<Vec<u8>>)>) -> bool {
    forall|i: int, j: int|
        0 <= i < j < entries.len() ==> #[trigger] entries[i].0@ != #[trigger] entries[j].0@
}

/// The value a transaction reads for a key: its own put or deletion if it made one, and
/// otherwise what is stored.
pub open spec fn spec_read(
    changes: Map<Seq<char>, Option<Seq<u8>>>,
    key: Seq<char>,
    stored: Option<Seq<u8>>,
) -> Option<Seq<u8>> {
    if changes.contains_key(key) {
        changes[key]
    } else {
        stored
    }
}

proof fn lemma_entries_absent(entries: Seq<(String, Option<Vec<u8>>)>, key: Seq<char>)
    requires
        forall|i: int| 0 <= i < entries.len() ==> #[trigger] entries[i].0@ != key,
    ensures
        !entries_map(entries).contains_key(key),
    decreases entries.len(),
{
    if entries.len() > 0 {
        let front = entries.drop_last();
        assert forall|i: int| 0 <= i < front.len() implies #[trigger] front[i].0@ != key by {
            assert(front[i] == entries[i]);
        }
        lemma_entries_absent(front, key);
        assert(entries.last() == entries[entries.len() - 1]);
    }
}

proof fn lemma_entries_lookup(entries: Seq<(String, Option<Vec<u8>>)>, i: int)
    requires
        keys_unique(entries),
        0 <= i < entries.len(),
    ensures
        entries_map(entries).contains_key(entries[i].0@),
        entries_map(entries)[entries[i].0@] == bytes_opt(entries[i].1),
    decreases entries.len(),
{
    let n = entries.len();
    if i < n - 1 {
        let front = entries.drop_last();
        assert(front[i] == entries[i]);
        assert forall|a: int, b: int| 0 <= a < b < front.len() implies #[trigger] front[a].0@
            != #[trigger] front[b].0@ by {
            assert(front[a] == entries[a] && front[b] == entries[b]);
        }
        lemma_entries_lookup(front, i);
        assert(entries[i].0@ != entries[n - 1].0@);
    }
}

proof fn lemma_entries_update(entries: Seq<(String, Option<Vec<u8>>)>, i: int, value: Option<Vec<u8>>)
    requires
        keys_unique(entries),
        0 <= i < entries.len(),
    ensures
        entries_map(entries.update(i, (entries[i].0, value))) =~= entries_map(entries).insert(
            entries[i].0@,
            bytes_opt(value),
        ),
    decreases entries.len(),
{
    let n = entries.len();
    let updated = entries.update(i, (entries[i].0, value));
    if i == n - 1 {
        assert(updated.drop_last() =~= entries.drop_last());
    } else {
        let front = entries.drop_last();
        assert forall|a: int, b: int| 0 <= a < b < front.len() implies #[trigger] front[a].0@
            != #[trigger] front[b].0@ by {
            assert(front[a] == entries[a] && front[b] == entries[b]);
        }
        assert(front[i] == entries[i]);
        lemma_entries_update(front, i, value);
        assert(updated.drop_last() =~= front.update(i, (front[i].0, value)));
        assert(updated.last() == entries.last());
        assert(entries[i].0@ != entries[n - 1].0@);
    }
}

proof fn lemma_entries_key_index(entries: Seq<(String, Option<Vec<u8>>)>, key: Seq<char>)
    requires
        entries_map(entries).contains_key(key),
    ensures
        exists|i: int| 0 <= i < entries.len() && #[trigger] entries[i].0@ == key,
    decreases entries.len(),
{
    if entries.last().0@ != key {
        lemma_entries_key_index(entries.drop_last(), key);
        let i = choose|i: int| 0 <= i < entries.drop_last().len() && #[trigger] entries.drop_last()[i].0@ == key;
        assert(entries[i] == entries.drop_last()[i]);
    } else {
        assert(entries[entries.len() - 1].0@ == key);
    }
}

/// One change a committed transaction applies to the store.
pub enum Mutation {
    Put { key: String, value: Vec<u8> },
    Delete { key: String },
    /// Deletes every key from `start` up to, not including, `end`.
    DeleteRange { start: String, end: String },
}

/// The buffered writes of one transaction.
pub struct WriteBuffer {
    entries: Vec<(String, Option<Vec<u8>>)>,
    ranges: Vec<(String, String)>,
}

impl WriteBuffer {
    /// Each key has at most one buffered write.
    pub closed spec fn wf(self) -> bool {
        keys_unique(self.entries@)
    }

    /// The key each buffered write touched, with the encoded value put there or `None`
    /// for a deletion.
    pub closed spec fn changes(self) -> Map<Seq<char>, Option<Seq<u8>>> {
        entries_map(self.entries@)
    }

    /// The ranges deleted, in the order they were deleted.
    pub closed spec fn range_deletions(self) -> Seq<(Seq<char>, Seq<char>)> {
        self.ranges@.map_values(|r: (String, String)| (r.0@, r.1@))
    }

    /// An empty buffer.
    pub fn new() -> (buffer: Self)
        ensures
            buffer.wf(),
            buffer.changes() == Map::<Seq<char>, Option<Seq<u8>>>::empty(),
            buffer.range_deletions() == Seq::<(Seq<char>, Seq<char>)>::empty(),
    {
        let buffer = WriteBuffer { entries: Vec::new(), ranges: Vec::new() };
        assert(buffer.range_deletions() =~= Seq::<(Seq<char>, Seq<char>)>::empty());
        buffer
    }

    fn position(&self, key: &str) -> (found: Option<usize>)
        ensures
            match found {
                Some(i) => i < self.entries@.len() && self.entries@[i as int].0@ == key@,
                None => forall|i: int|
                    0 <= i < self.entries@.len() ==> #[trigger] self.entries@[i].0@ != key@,
            },
    {
        let mut i: usize = 0;
        while i < self.entries.len()
            invariant
                i <= self.entries@.len(),
                forall|k: int| 0 <= k < i ==> #[trigger] self.entries@[k].0@ != key@,
            decreases self.entries.len() - i,
        {
            if str_eq(self.entries[i].0.as_str(), key) {
                return Some(i);
            }
            i = i + 1;
        }
        None
    }

    fn set(&mut self, key: &str, value: Option<Vec<u8>>)
        requires
            old(self).wf(),
        ensures
            final(self).wf(),
            final(self).changes() == old(self).changes().insert(key@, bytes_opt(value)),
            final(self).range_deletions() == old(self).range_deletions(),
    {
        match self.position(key) {
            Some(i) => {
                let ghost before = self.entries@;
                let name = self.entries[i].0.clone();
                proof {
                    lemma_entries_update(before, i as int, value);
                }
                self.entries.set(i, (name, value));
                assert(self.entries@ =~= before.update(i as int, (before[i as int].0, value)));
                assert forall|a: int, b: int| 0 <= a < b < self.entries@.len() implies
                    #[trigger] self.entries@[a].0@ != #[trigger] self.entries@[b].0@ by {
                    assert(self.entries@[a].0@ == before[a].0@);
                    assert(self.entries@[b].0@ == before[b].0@);
                }
            },
            None => {
                let ghost before = self.entries@;
                self.entries.push((key.to_owned(), value));
                assert(self.entries@.drop_last() =~= before);
                assert forall|a: int, b: int| 0 <= a < b < self.entries@.len() implies
                    #[trigger] self.entries@[a].0@ != #[trigger] self.entries@[b].0@ by {
                    if b < before.len() {
                        assert(self.entries@[a] == before[a] && self.entries@[b] == before[b]);
                    } else {
                        assert(self.entries@[a] == before[a]);
                    }
                }
            },
        }
    }

    /// Buffers a put of an encoded value.
    pub fn put(&mut self, key: &str, value: Vec<u8>)
        requires
            old(self).wf(),
        ensures
            final(self).wf(),
            final(self).changes() == old(self).changes().insert(key@, Some(value@)),
            final(self).range_deletions() == old(self).range_deletions(),
    {
        self.set(key, Some(value));
    }

    /// Buffers a deletion.
    pub fn delete(&mut self, key: &str)
        requires
            old(self).wf(),
        ensures
            final(self).wf(),
            final(self).changes() == old(self).changes().insert(key@, None),
            final(self).range_deletions() == old(self).range_deletions(),
    {
        self.set(key, None);
    }

    /// Buffers the deletion of every stored key from `start` up to, not including, `end`.
    /// Reads inside the transaction do not see it; commit applies it after the other
    /// writes.
    pub fn delete_range(&mut self, start: String, end: String)
        requires
            old(self).wf(),
        ensures
            final(self).wf(),
            final(self).changes() == old(self).changes(),
            final(self).range_deletions() == old(self).range_deletions().push((start@, end@)),
    {
        let ghost before = self.ranges@;
        self.ranges.push((start, end));
        assert(self.ranges@.map_values(|r: (String, String)| (r.0@, r.1@)) =~= before.map_values(
            |r: (String, String)| (r.0@, r.1@),
        ).push((start@, end@)));
    }

    /// What the transaction's own writes say of a key: `None` when it did not touch the
    /// key, `Some(None)` when it deleted it.
    pub fn buffered(&self, key: &str) -> (r: Option<Option<&Vec<u8>>>)
        requires
            self.wf(),
        ensures
            match r {
                None => !self.changes().contains_key(key@),
                Some(None) => self.changes().contains_key(key@) && self.changes()[key@] is None,
                Some(Some(v)) => self.changes().contains_key(key@) && self.changes()[key@]
                    == Some(v@),
            },
    {
        match self.position(key) {
            None => {
                proof {
                    lemma_entries_absent(self.entries@, key@);
                }
                None
            },
            Some(i) => {
                proof {
                    lemma_entries_lookup(self.entries@, i as int);
                }
                match &self.entries[i].1 {
                    None => Some(None),
                    Some(v) => Some(Some(v)),
                }
            },
        }
    }

    /// The value the transaction reads for a key, given what the store holds for it.
    pub fn read<'a>(&'a self, key: &str, stored: Option<&'a Vec<u8>>) -> (value: Option<
        &'a Vec<u8>,
    >)
        requires
            self.wf(),
        ensures
            match value {
                Some(v) => spec_read(
                    self.changes(),
                    key@,
                    match stored {
                        Some(s) => Some(s@),
                        None => None,
                    },
                ) == Some(v@),
                None => spec_read(
                    self.changes(),
                    key@,
                    match stored {
                        Some(s) => Some(s@),
                        None => None,
                    },
                ) is None,
            },
    {
        match self.buffered(key) {
            None => stored,
            Some(None) => None,
            Some(Some(v)) => Some(v),
        }
    }

    /// The batch a commit applies: one put or deletion per buffered key, then the range
    /// deletions in order.
    pub fn into_mutations(self) -> (mutations: Vec<Mutation>)
        requires
            self.wf(),
        ensures
            is_commit_batch(self.changes(), self.range_deletions(), mutations@),
    {
        proof {
            lemma_entries_len(self.entries@);
        }
        let ghost changes = self.changes();
        let ghost ranges = self.range_deletions();
        let ghost entries = self.entries@;
        let WriteBuffer { entries: mut pending, ranges: deletions } = self;
        let mut mutations: Vec<Mutation> = Vec::new();
        let n = pending.len();
        while pending.len() > 0
            invariant
                n == entries.len(),
                pending@.len() <= n,
                pending@ == entries.take(pending@.len() as int),
                keys_unique(entries),
                changes == entries_map(entries),
                mutations@.len() == n - pending@.len(),
                forall|k: int|
                    0 <= k < mutations@.len() ==> mutation_key(#[trigger] mutations@[k])
                        == entries[n - 1 - k].0@ && mutation_state(mutations@[k]) == bytes_opt(
                        entries[n - 1 - k].1,
                    ) && mutations@[k] !is DeleteRange,
            decreases pending@.len(),
        {
            let ghost before = pending@;
            let ghost idx = pending@.len() - 1;
            match pending.pop() {
                Some((key, value)) => {
                    assert(entries[idx] == before[idx]);
                    match value {
                        Some(v) => mutations.push(Mutation::Put { key, value: v }),
                        None => mutations.push(Mutation::Delete { key }),
                    }
                    assert(pending@ =~= entries.take(pending@.len() as int));
                },
                None => {},
            }
        }
        proof {
            assert forall|k: int| 0 <= k < n implies match #[trigger] mutations@[k] {
                Mutation::Put { key, value } => changes.contains_key(key@) && changes[key@]
                    == Some(value@),
                Mutation::Delete { key } => changes.contains_key(key@) && changes[key@] is None,
                Mutation::DeleteRange { .. } => false,
            } by {
                lemma_entries_lookup(entries, n - 1 - k);
            }
            assert forall|a: int, b: int| 0 <= a < b < n implies mutation_key(
                #[trigger] mutations@[a],
            ) != mutation_key(#[trigger] mutations@[b]) by {
                assert(entries[n - 1 - b].0@ != entries[n - 1 - a].0@);
            }
        }
        let ghost first = mutations@;
        let mut j: usize = 0;
        let m = deletions.len();
        while j < m
            invariant
                m == deletions@.len(),
                ranges == deletions@.map_values(|r: (String, String)| (r.0@, r.1@)),
                j <= m,
                mutations@.len() == n + j,
                first.len() == n,
                forall|k: int| 0 <= k < n ==> #[trigger] mutations@[k] == first[k],
                forall|k: int|
                    0 <= k < j ==> match #[trigger] mutations@[n + k] {
                        Mutation::DeleteRange { start, end } => (start@, end@) == ranges[k],
                        _ => false,
                    },
            decreases m - j,
        {
            let start = deletions[j].0.clone();
            let end = deletions[j].1.clone();
            mutations.push(Mutation::DeleteRange { start, end });
            j = j + 1;
        }
        proof {
            assert forall|a: int, b: int| 0 <= a < b < n implies mutation_key(
                #[trigger] mutations@[a],
            ) != mutation_key(#[trigger] mutations@[b]) by {
                assert(mutations@[a] == first[a] && mutations@[b] == first[b]);
            }
            assert forall|key: Seq<char>| #[trigger] changes.contains_key(key) implies exists|i: int|
                0 <= i < n && mutation_key(#[trigger] mutations@[i]) == key by {
                lemma_entries_key_index(entries, key);
                let e = choose|e: int| 0 <= e < entries.len() && #[trigger] entries[e].0@ == key;
                assert(mutations@[n - 1 - e] == first[n - 1 - e]);
                assert(mutation_key(mutations@[n - 1 - e]) == key);
            }
            assert forall|k: int| 0 <= k < n implies match #[trigger] mutations@[k] {
                Mutation::Put { key, value } => changes.contains_key(key@) && changes[key@]
                    == Some(value@),
                Mutation::Delete { key } => changes.contains_key(key@) && changes[key@] is None,
                Mutation::DeleteRange { .. } => false,
            } by {
                assert(mutations@[k] == first[k]);
            }
        }
        mutations
    }
}

pub open spec fn mutation_key(m: Mutation) -> Seq<char> {
    match m {
        Mutation::Put { key, .. } => key@,
        Mutation::Delete { key } => key@,
        Mutation::DeleteRange { start, .. } => start@,
    }
}

pub open spec fn mutation_state(m: Mutation) -> Option<Seq<u8>> {
    match m {
        Mutation::Put { value, .. } => Some(value@),
        _ => None,
    }
}

proof fn lemma_entries_len(entries: Seq<(String, Option<Vec<u8>>)>)
    requires
        keys_unique(entries),
    ensures
        entries_map(entries).dom().len() == entries.len(),
        entries_map(entries).dom().finite(),
    decreases entries.len(),
{
    if entries.len() > 0 {
        let front = entries.drop_last();
        assert forall|a: int, b: int| 0 <= a < b < front.len() implies #[trigger] front[a].0@
            != #[trigger] front[b].0@ by {
            assert(front[a] == entries[a] && front[b] == entries[b]);
        }
        lemma_entries_len(front);
        assert forall|i: int| 0 <= i < front.len() implies #[trigger] front[i].0@
            != entries.last().0@ by {
            assert(front[i] == entries[i]);
            assert(entries.last() == entries[entries.len() - 1]);
        }
        lemma_entries_absent(front, entries.last().0@);
    }
}

/// A read gives back the transaction's own last write of a key, whatever the store holds.
pub proof fn law_read_your_writes(
    changes: Map<Seq<char>, Option<Seq<u8>>>,
    key: Seq<char>,
    value: Seq<u8>,
    stored: Option<Seq<u8>>,
)
    ensures
        spec_read(changes.insert(key, Some(value)), key, stored) == Some(value),
        spec_read(changes.insert(key, None), key, stored) is None,
{
}

/// A write of one key leaves every other key's reads as they were.
pub proof fn law_writes_leave_other_keys(
    changes: Map<Seq<char>, Option<Seq<u8>>>,
    key: Seq<char>,
    written: Option<Seq<u8>>,
    other: Seq<char>,
    stored: Option<Seq<u8>>,
)
    requires
        key != other,
    ensures
        spec_read(changes.insert(key, written), other, stored) == spec_read(changes, other, stored),
{
}

/// A key the transaction never wrote reads as the store holds it.
pub proof fn law_untouched_keys_read_through(key: Seq<char>, stored: Option<Seq<u8>>)
    ensures
        spec_read(Map::empty(), key, stored) == stored,
{
}

/// What a store holds at a key.
pub open spec fn stored_at(store: Map<Seq<char>, Seq<u8>>, key: Seq<char>) -> Option<Seq<u8>> {
    if store.contains_key(key) {
        Some(store[key])
    } else {
        None
    }
}

/// Whether a key lies in the range from `start`, included, to `end`, excluded, in the byte
/// order in which the store sorts its keys.
pub open spec fn in_key_range(key: Seq<char>, start: Seq<char>, end: Seq<char>) -> bool {
    !bytes_lt(encode_utf8(key), encode_utf8(start)) && bytes_lt(encode_utf8(key), encode_utf8(end))
}

/// The store after one mutation.
pub open spec fn apply_mutation(store: Map<Seq<char>, Seq<u8>>, m: Mutation) -> Map<Seq<char>, Seq<u8>> {
    match m {
        Mutation::Put { key, value } => store.insert(key@, value@),
        Mutation::Delete { key } => store.remove(key@),
        Mutation::DeleteRange { start, end } => Map::new(
            |k: Seq<char>| store.contains_key(k) && !in_key_range(k, start@, end@),
            |k: Seq<char>| store[k],
        ),
    }
}

/// The store after a batch of mutations, applied in order.
pub open spec fn apply_mutations(store: Map<Seq<char>, Seq<u8>>, ms: Seq<Mutation>) -> Map<Seq<char>, Seq<u8>>
    decreases ms.len(),
{
    if ms.len() == 0 {
        store
    } else {
        apply_mutation(apply_mutations(store, ms.drop_last()), ms.last())
    }
}

/// A commit batch of a buffer: one put or deletion for each changed key, as the buffer
/// changed it, then the range deletions in order.
pub open spec fn is_commit_batch(
    changes: Map<Seq<char>, Option<Seq<u8>>>,
    ranges: Seq<(Seq<char>, Seq<char>)>,
    ms: Seq<Mutation>,
) -> bool {
    let n = changes.dom().len() as int;
    &&& ms.len() == n + ranges.len()
    &&& forall|i: int| 0 <= i < n ==> match #[trigger] ms[i] {
        Mutation::Put { key, value } => changes.contains_key(key@) && changes[key@] == Some(value@),
        Mutation::Delete { key } => changes.contains_key(key@) && changes[key@] is None,
        Mutation::DeleteRange { .. } => false,
    }
    &&& forall|i: int, j: int| 0 <= i < j < n ==> mutation_key(#[trigger] ms[i]) != mutation_key(#[trigger] ms[j])
    &&& forall|key: Seq<char>| #[trigger] changes.contains_key(key) ==> exists|i: int|
        0 <= i < n && mutation_key(#[trigger] ms[i]) == key
    &&& forall|k: int| 0 <= k < ranges.len() ==> match #[trigger] ms[n + k] {
        Mutation::DeleteRange { start, end } => (start@, end@) == ranges[k],
        _ => false,
    }
}

proof fn lemma_point_prefix(store: Map<Seq<char>, Seq<u8>>, ms: Seq<Mutation>, n: int, p: int, key: Seq<char>)
    requires
        0 <= p <= n <= ms.len(),
        forall|i: int| 0 <= i < n ==> !(#[trigger] ms[i] is DeleteRange),
        forall|i: int, j: int| 0 <= i < j < n ==> mutation_key(#[trigger] ms[i]) != mutation_key(#[trigger] ms[j]),
    ensures
        (forall|i: int| 0 <= i < p ==> mutation_key(#[trigger] ms[i]) != key)
            ==> stored_at(apply_mutations(store, ms.take(p)), key) == stored_at(store, key),
        forall|i: int| 0 <= i < p && mutation_key(#[trigger] ms[i]) == key
            ==> stored_at(apply_mutations(store, ms.take(p)), key) == mutation_state(ms[i]),
    decreases p,
{
    if p == 0 {
        assert(ms.take(0) =~= Seq::<Mutation>::empty());
    } else {
        lemma_point_prefix(store, ms, n, p - 1, key);
        assert(ms.take(p).drop_last() =~= ms.take(p - 1));
        assert(ms.take(p).last() == ms[p - 1]);
        let m = ms[p - 1];
        assert(!(m is DeleteRange));
        assert forall|i: int| 0 <= i < p && mutation_key(#[trigger] ms[i]) == key
            implies stored_at(apply_mutations(store, ms.take(p)), key) == mutation_state(ms[i]) by {
            if i < p - 1 {
                assert(mutation_key(ms[i]) != mutation_key(ms[p - 1]));
            }
        }
    }
}

proof fn lemma_range_suffix(
    store: Map<Seq<char>, Seq<u8>>,
    ms: Seq<Mutation>,
    n: int,
    q: int,
    ranges: Seq<(Seq<char>, Seq<char>)>,
    key: Seq<char>,
)
    requires
        0 <= n <= q <= ms.len(),
        ms.len() == n + ranges.len(),
        forall|k: int| 0 <= k < ranges.len() ==> match #[trigger] ms[n + k] {
            Mutation::DeleteRange { start, end } => (start@, end@) == ranges[k],
            _ => false,
        },
    ensures
        (forall|k: int| 0 <= k < q - n ==> !in_key_range(key, #[trigger] ranges[k].0, ranges[k].1))
            ==> stored_at(apply_mutations(store, ms.take(q)), key) == stored_at(
            apply_mutations(store, ms.take(n)),
            key,
        ),
        (exists|k: int| 0 <= k < q - n && in_key_range(key, #[trigger] ranges[k].0, ranges[k].1))
            ==> !apply_mutations(store, ms.take(q)).contains_key(key),
    decreases q,
{
    if q > n {
        lemma_range_suffix(store, ms, n, q - 1, ranges, key);
        assert(ms.take(q).drop_last() =~= ms.take(q - 1));
        assert(ms.take(q).last() == ms[q - 1]);
        let k = q - 1 - n;
        assert(ms[n + k] == ms[q - 1]);
        let prior = apply_mutations(store, ms.take(q - 1));
        match ms[q - 1] {
            Mutation::DeleteRange { start, end } => {
                assert((start@, end@) == ranges[k]);
                assert(apply_mutations(store, ms.take(q)) == apply_mutation(prior, ms[q - 1]));
                if !in_key_range(key, ranges[k].0, ranges[k].1) {
                    assert(apply_mutations(store, ms.take(q)).contains_key(key) == prior.contains_key(key));
                    if prior.contains_key(key) {
                        assert(apply_mutations(store, ms.take(q))[key] == prior[key]);
                    }
                } else {
                    assert(!apply_mutations(store, ms.take(q)).contains_key(key));
                }
                if exists|r: int| 0 <= r < q - n && in_key_range(key, #[trigger] ranges[r].0, ranges[r].1) {
                    let r = choose|r: int| 0 <= r < q - n && in_key_range(key, #[trigger] ranges[r].0, ranges[r].1);
                    if r < k {
                        assert(!prior.contains_key(key));
                    }
                }
            },
            _ => {},
        }
    }
}

/// Committing a transaction writes what it read: after its commit batch is applied to a
/// store, a key outside every deleted range holds what the transaction read for it (its own
/// last write, or what was stored), and a key inside a deleted range holds nothing.
pub proof fn law_commit_applies_the_buffer(
    store: Map<Seq<char>, Seq<u8>>,
    changes: Map<Seq<char>, Option<Seq<u8>>>,
    ranges: Seq<(Seq<char>, Seq<char>)>,
    ms: Seq<Mutation>,
    key: Seq<char>,
)
    requires
        is_commit_batch(changes, ranges, ms),
    ensures
        (forall|r: int| 0 <= r < ranges.len() ==> !in_key_range(key, #[trigger] ranges[r].0, ranges[r].1))
            ==> stored_at(apply_mutations(store, ms), key) == spec_read(changes, key, stored_at(store, key)),
        (exists|r: int| 0 <= r < ranges.len() && in_key_range(key, #[trigger] ranges[r].0, ranges[r].1))
            ==> !apply_mutations(store, ms).contains_key(key),
{
    let n = changes.dom().len() as int;
    assert forall|i: int| 0 <= i < n implies !(#[trigger] ms[i] is DeleteRange) by {
        match ms[i] {
            Mutation::DeleteRange { .. } => {},
            _ => {},
        }
    }
    lemma_point_prefix(store, ms, n, n, key);
    lemma_range_suffix(store, ms, n, ms.len() as int, ranges, key);
    assert(ms.take(ms.len() as int) =~= ms);
    if changes.contains_key(key) {
        let i = choose|i: int| 0 <= i < n && mutation_key(#[trigger] ms[i]) == key;
        match ms[i] {
            Mutation::Put { key: k2, value } => {},
            Mutation::Delete { key: k2 } => {},
            Mutation::DeleteRange { .. } => {},
        }
    } else {
        assert forall|i: int| 0 <= i < n implies mutation_key(#[trigger] ms[i]) != key by {
            match ms[i] {
                Mutation::Put { key: k2, value } => {},
                Mutation::Delete { key: k2 } => {},
                Mutation::DeleteRange { .. } => {},
            }
        }
    }
}

} // verus!
