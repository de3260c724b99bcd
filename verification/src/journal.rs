//! The rules of the conditional object-store journal: which appends a partition head admits,
//! which heads and records recovery trusts, and when a checkpoint may be published.
use crate::text::{lemma_text_lt_irreflexive, lemma_text_lt_transitive, spec_split_on, split_on, str_eq, text_less, text_lt};
use sha2::Digest;
use vstd::prelude::*;

verus! {

/// The on-object format of journal heads, records and checkpoint pointers.
pub const JOURNAL_FORMAT: u32 = 1;

/// The conditionally updated head object of one journal partition.
pub struct JournalHead {
    pub format: u32,
    pub partition: u32,
    pub owner_epoch: u64,
    pub position: u64,
    pub record_path: String,
}

/// The header fields of one immutable journal record.
#[derive(Debug, Clone, Copy, PartialEq, Eq, Structural)]
pub struct RecordHeader {
    pub format: u32,
    pub partition: u32,
    pub owner_epoch: u64,
    pub position: u64,
}

/// Why the journal refused an append, a head, a record or a checkpoint.
#[derive(Debug, Clone, Copy, PartialEq, Eq, Structural)]
pub enum JournalError {
    /// An append with owner epoch zero.
    NonPositiveEpoch,
    /// The expected head belongs to another partition.
    ForeignCursor,
    /// The owner epoch neither stays nor advances by exactly one.
    EpochSkip,
    /// A head with another format, another partition or position zero.
    InvalidHead,
    /// A record with another format, partition or position, or epoch zero.
    InvalidRecord,
    /// Consecutive records whose owner epochs go back or skip a generation.
    NonMonotonicEpoch,
    /// The published checkpoint covers a partition further than the new one.
    CheckpointRegress,
    /// A checkpoint digest that is not 64 hexadecimal digits.
    InvalidDigest,
    /// A checkpoint file path that is absolute or climbs out of the checkpoint.
    UnsafePath,
    /// A checkpoint object whose size or digest differs from what the checkpoint lists.
    CorruptContent,
    /// The chain of records ended, or a record could not be read, before the walk reached
    /// the position recovery starts after.
    ChainEnded,
}

pub open spec fn saturating_next(epoch: u64) -> u64 {
    if epoch == u64::MAX {
        epoch
    } else {
        (epoch + 1) as u64
    }
}

/// The position an append takes, or why it is refused.
pub open spec fn spec_plan_append(
    partition: u32,
    expected: Option<(u32, u64, u64)>,
    owner_epoch: u64,
) -> Result<u64, JournalError> {
    if owner_epoch == 0 {
        Err(JournalError::NonPositiveEpoch)
    } else {
        match expected {
            None => Ok(1),
            Some((head_partition, head_epoch, head_position)) => if head_partition != partition {
                Err(JournalError::ForeignCursor)
            } else if owner_epoch != head_epoch && owner_epoch != saturating_next(head_epoch) {
                Err(JournalError::EpochSkip)
            } else {
                Ok((head_position + 1) as u64)
            },
        }
    }
}

pub open spec fn head_fields(head: &JournalHead) -> (u32, u64, u64) {
    (head.partition, head.owner_epoch, head.position)
}

/// Checks an append against the head it expects to replace and returns the new record's
/// position: one past the head, or one for an empty partition.
pub fn plan_append(partition: u32, expected: Option<&JournalHead>, owner_epoch: u64) -> (r: Result<
    u64,
    JournalError,
>)
    requires
        expected matches Some(head) ==> head.position < u64::MAX,
    ensures
        r == spec_plan_append(
            partition,
            match expected {
                Some(head) => Some(head_fields(head)),
                None => None,
            },
            owner_epoch,
        ),
{
    if owner_epoch == 0 {
        return Err(JournalError::NonPositiveEpoch);
    }
    match expected {
        None => Ok(1),
        Some(head) => {
            if head.partition != partition {
                return Err(JournalError::ForeignCursor);
            }
            if owner_epoch != head.owner_epoch && owner_epoch != head.owner_epoch.saturating_add(
                1,
            ) {
                return Err(JournalError::EpochSkip);
            }
            Ok(head.position + 1)
        },
    }
}

/// The head an append writes once its record is stored.
pub fn next_head(partition: u32, owner_epoch: u64, position: u64, record_path: String) -> (head:
    JournalHead)
    ensures
        head.format == JOURNAL_FORMAT,
        head.partition == partition,
        head.owner_epoch == owner_epoch,
        head.position == position,
        head.record_path@ == record_path@,
{
    JournalHead { format: JOURNAL_FORMAT, partition, owner_epoch, position, record_path }
}

pub open spec fn same_head(a: &JournalHead, b: &JournalHead) -> bool {
    a.format == b.format && a.partition == b.partition && a.owner_epoch == b.owner_epoch
        && a.position == b.position && a.record_path@ == b.record_path@
}

/// After an ambiguous conditional write, the append counts as committed exactly when the head
/// read back is the one it wrote; any other head fences it.
pub fn append_was_committed(written: &JournalHead, observed: Option<&JournalHead>) -> (committed:
    bool)
    ensures
        committed == (observed matches Some(o) && same_head(written, o)),
{
    match observed {
        None => false,
        Some(o) => written.format == o.format && written.partition == o.partition
            && written.owner_epoch == o.owner_epoch && written.position == o.position
            && written.record_path == o.record_path,
    }
}

/// A head read back for `partition` is trusted only in the current format, for that partition,
/// and past position zero.
pub fn check_head(head: &JournalHead, partition: u32) -> (r: Result<(), JournalError>)
    ensures
        r is Ok <==> (head.format == JOURNAL_FORMAT && head.partition == partition && head.position
            != 0),
        r is Err ==> r == Err::<(), JournalError>(JournalError::InvalidHead),
{
    if head.format != JOURNAL_FORMAT || head.partition != partition || head.position == 0 {
        Err(JournalError::InvalidHead)
    } else {
        Ok(())
    }
}

/// A record met while walking back from the head is trusted only in the current format, for
/// the partition, at the position the walk expects, and with a positive owner epoch.
pub fn check_record(record: &RecordHeader, partition: u32, expected_position: u64) -> (r: Result<
    (),
    JournalError,
>)
    ensures
        r is Ok <==> (record.format == JOURNAL_FORMAT && record.partition == partition
            && record.position == expected_position && record.owner_epoch != 0),
        r is Err ==> r == Err::<(), JournalError>(JournalError::InvalidRecord),
{
    if record.format != JOURNAL_FORMAT || record.partition != partition || record.position
        != expected_position || record.owner_epoch == 0 {
        Err(JournalError::InvalidRecord)
    } else {
        Ok(())
    }
}

/// Each owner epoch stays or advances by one from its predecessor.
pub open spec fn epochs_step_by_generation(epochs: Seq<u64>) -> bool {
    forall|i: int|
        0 <= i < epochs.len() - 1 ==> epochs[i] <= #[trigger] epochs[i + 1] <= saturating_next(
            epochs[i],
        )
}

/// Accepts a recovered chain, oldest record first, exactly when every owner epoch stays or
/// advances by one generation from the record before it.
pub fn check_recovered_epochs(epochs: &[u64]) -> (r: Result<(), JournalError>)
    ensures
        r is Ok <==> epochs_step_by_generation(epochs@),
        r is Err ==> r == Err::<(), JournalError>(JournalError::NonMonotonicEpoch),
{
    if epochs.len() == 0 {
        return Ok(());
    }
    let mut i: usize = 0;
    while i + 1 < epochs.len()
        invariant
            i < epochs.len(),
            forall|k: int| 0 <= k < i ==> epochs@[k] <= #[trigger] epochs@[k + 1] <= saturating_next(epochs@[k]),
        decreases epochs.len() - i,
    {
        if epochs[i + 1] < epochs[i] || epochs[i + 1] > epochs[i].saturating_add(1) {
            return Err(JournalError::NonMonotonicEpoch);
        }
        i = i + 1;
    }
    Ok(())
}

/// A recovered chain never goes back to an earlier owner, and crosses at most one owner
/// generation per record: a fenced owner's late records cannot follow its successor's.
pub proof fn law_recovered_epochs_are_monotonic(epochs: Seq<u64>, i: int, j: int)
    requires
        epochs_step_by_generation(epochs),
        0 <= i <= j < epochs.len(),
    ensures
        epochs[i] <= epochs[j],
        epochs[j] <= epochs[i] + (j - i),
    decreases j - i,
{
    if i < j {
        law_recovered_epochs_are_monotonic(epochs, i, j - 1);
        assert(epochs[j - 1] <= epochs[(j - 1) + 1]);
    }
}

/// An admitted append continues its head: the same partition, the next position, and an owner
/// epoch that stays or advances by exactly one.
pub proof fn law_append_continues_head(
    partition: u32,
    head_epoch: u64,
    head_position: u64,
    owner_epoch: u64,
)
    requires
        head_position < u64::MAX,
        spec_plan_append(partition, Some((partition, head_epoch, head_position)), owner_epoch) is Ok,
    ensures
        spec_plan_append(partition, Some((partition, head_epoch, head_position)), owner_epoch)
            == Ok::<u64, JournalError>((head_position + 1) as u64),
        head_epoch <= owner_epoch <= saturating_next(head_epoch),
        epochs_step_by_generation(seq![head_epoch, owner_epoch]),
{
    assert(seq![head_epoch, owner_epoch][0] == head_epoch);
    assert(seq![head_epoch, owner_epoch][1] == owner_epoch);
}

/// The sequence a manifest records for a partition: the first entry naming it.
pub open spec fn sequence_for(entries: Seq<(u32, u64)>, partition: u32) -> Option<u64>
    decreases entries.len(),
{
    if entries.len() == 0 {
        None
    } else if entries[0].0 == partition {
        Some(entries[0].1)
    } else {
        sequence_for(entries.drop_first(), partition)
    }
}

/// Whether publishing `next` over `current` would lose progress on `current[i]`'s partition.
pub open spec fn regresses_at(current: Seq<(u32, u64)>, next: Seq<(u32, u64)>, i: int) -> bool {
    match sequence_for(next, current[i].0) {
        None => true,
        Some(n) => n < current[i].1,
    }
}

fn lookup_sequence(entries: &Vec<(u32, u64)>, partition: u32) -> (r: Option<u64>)
    ensures
        r == sequence_for(entries@, partition),
{
    let mut i: usize = 0;
    assert(entries@.subrange(0, entries@.len() as int) =~= entries@);
    while i < entries.len()
        invariant
            i <= entries@.len(),
            sequence_for(entries@, partition) == sequence_for(entries@.subrange(i as int, entries@.len() as int), partition),
        decreases entries.len() - i,
    {
        let ghost rest = entries@.subrange(i as int, entries@.len() as int);
        assert(rest.drop_first() =~= entries@.subrange(i + 1, entries@.len() as int));
        if entries[i].0 == partition {
            return Some(entries[i].1);
        }
        i = i + 1;
    }
    assert(entries@.subrange(i as int, entries@.len() as int) =~= Seq::<(u32, u64)>::empty());
    None
}

/// The first partition, in the order the published manifest lists them, whose position the
/// new manifest would lose; `None` when publication keeps every partition's progress.
pub fn checkpoint_regression(current: &Vec<(u32, u64)>, next: &Vec<(u32, u64)>) -> (r: Option<u32>)
    ensures
        r is None <==> forall|i: int| 0 <= i < current@.len() ==> !regresses_at(current@, next@, i),
        r matches Some(p) ==> exists|i: int|
            0 <= i < current@.len() && current@[i].0 == p && regresses_at(current@, next@, i) && forall|k: int| 0 <= k < i ==> !regresses_at(current@, next@, k),
{
    let mut i: usize = 0;
    while i < current.len()
        invariant
            i <= current@.len(),
            forall|k: int| 0 <= k < i ==> !regresses_at(current@, next@, k),
        decreases current.len() - i,
    {
        let (partition, position) = current[i];
        let regressed = match lookup_sequence(next, partition) {
            None => true,
            Some(n) => n < position,
        };
        if regressed {
            assert(regresses_at(current@, next@, i as int));
            return Some(partition);
        }
        i = i + 1;
    }
    None
}

pub open spec fn is_hex_byte(b: u8) -> bool {
    (48 <= b <= 57) || (65 <= b <= 70) || (97 <= b <= 102)
}

/// A content digest is sixty-four ASCII hexadecimal digits.
pub open spec fn digest_is_well_formed(digest: Seq<u8>) -> bool {
    digest.len() == 64 && forall|i: int| 0 <= i < 64 ==> is_hex_byte(#[trigger] digest[i])
}

/// Refuses a checkpoint file whose digest cannot name a content object.
pub fn check_digest(digest: &str) -> (r: Result<(), JournalError>)
    ensures
        r is Ok <==> digest_is_well_formed(vstd::utf8::encode_utf8(digest@)),
        r is Err ==> r == Err::<(), JournalError>(JournalError::InvalidDigest),
{
    let bytes = digest.as_bytes();
    assert(bytes@ == vstd::utf8::encode_utf8(digest@));
    if bytes.len() != 64 {
        return Err(JournalError::InvalidDigest);
    }
    let mut i: usize = 0;
    while i < 64
        invariant
            bytes@.len() == 64,
            bytes@ == vstd::utf8::encode_utf8(digest@),
            i <= 64,
            forall|k: int| 0 <= k < i ==> is_hex_byte(#[trigger] bytes@[k]),
        decreases 64 - i,
    {
        let b = bytes[i];
        if !((48 <= b && b <= 57) || (65 <= b && b <= 70) || (97 <= b && b <= 102)) {
            assert(!is_hex_byte(bytes@[i as int]));
            return Err(JournalError::InvalidDigest);
        }
        i = i + 1;
    }
    Ok(())
}

/// A checkpoint file path stays inside the checkpoint: it is relative and no component
/// is `..`.
pub open spec fn path_is_contained(path: Seq<char>) -> bool {
    !(path.len() > 0 && path[0] == '/') && forall|i: int|
        0 <= i < spec_split_on(path, '/').len() ==> #[trigger] spec_split_on(path, '/')[i]
            != ".."@
}

/// Checks a checkpoint file entry before its object is fetched: a contained path and a
/// well-formed digest.
pub fn check_checkpoint_entry(path: &str, digest: &str) -> (r: Result<(), JournalError>)
    ensures
        !path_is_contained(path@) ==> r == Err::<(), JournalError>(JournalError::UnsafePath),
        path_is_contained(path@) ==> r == if digest_is_well_formed(
            vstd::utf8::encode_utf8(digest@),
        ) {
            Ok::<(), JournalError>(())
        } else {
            Err(JournalError::InvalidDigest)
        },
{
    let n = path.unicode_len();
    if n > 0 && path.get_char(0) == '/' {
        return Err(JournalError::UnsafePath);
    }
    let parts = split_on(path, '/');
    let ghost names = parts@.map_values(|p: String| p@);
    let mut i: usize = 0;
    while i < parts.len()
        invariant
            names == parts@.map_values(|p: String| p@),
            names == spec_split_on(path@, '/'),
            i <= parts@.len(),
            forall|k: int| 0 <= k < i ==> #[trigger] names[k] != ".."@,
        decreases parts.len() - i,
    {
        if str_eq(parts[i].as_str(), "..") {
            assert(names[i as int] == ".."@);
            return Err(JournalError::UnsafePath);
        }
        i = i + 1;
    }
    match check_digest(digest) {
        Ok(()) => Ok(()),
        Err(e) => Err(e),
    }
}

/// The lowercase hexadecimal SHA-256 digest of some bytes.
pub uninterp spec fn sha256_hex(bytes: Seq<u8>) -> Seq<char>;

/// Calls `sha2::Sha256::digest` and prints the digest as lowercase hexadecimal; the text
/// is named `sha256_hex` of the bytes.
#[verifier::external_body]
fn content_digest(bytes: &[u8]) -> (digest: String)
    ensures
        digest@ == sha256_hex(bytes@),
{
    format!("{:x}", sha2::Sha256::digest(bytes))
}


/// One file of a published checkpoint: where it lies under the checkpoint directory, the
/// digest its content is stored under, and its size in bytes.
pub struct CheckpointFile {
    pub path: String,
    pub digest: String,
    pub size: u64,
}

pub open spec fn file_view(f: CheckpointFile) -> (Seq<char>, Seq<char>, u64) {
    (f.path@, f.digest@, f.size)
}

pub open spec fn file_views(files: Seq<CheckpointFile>) -> Seq<(Seq<char>, Seq<char>, u64)> {
    files.map_values(|f: CheckpointFile| file_view(f))
}

/// What a checkpoint lists for a file with the given path and content.
pub open spec fn listed_file(entry: (String, Vec<u8>)) -> (Seq<char>, Seq<char>, u64) {
    (entry.0@, sha256_hex(entry.1@), entry.1@.len() as u64)
}

pub open spec fn listed_files(entries: Seq<(String, Vec<u8>)>) -> Seq<(Seq<char>, Seq<char>, u64)> {
    entries.map_values(|e: (String, Vec<u8>)| listed_file(e))
}

pub open spec fn sorted_by_path(files: Seq<(Seq<char>, Seq<char>, u64)>) -> bool {
    forall|i: int, j: int| 0 <= i < j < files.len() ==> !text_lt(#[trigger] files[j].0, #[trigger] files[i].0)
}

/// The file list of a checkpoint, from the path and content of each file under its
/// directory: each file with the digest of its content and its size, the files in order of
/// path and each given file listed once.
pub fn checkpoint_files(entries: &[(String, Vec<u8>)]) -> (files: Vec<CheckpointFile>)
    ensures
        file_views(files@).to_multiset() == listed_files(entries@).to_multiset(),
        sorted_by_path(file_views(files@)),
{
    let mut files: Vec<CheckpointFile> = Vec::new();
    let ghost mut g: Seq<(Seq<char>, Seq<char>, u64)> = Seq::empty();
    let mut i: usize = 0;
    assert(listed_files(entries@).take(0) =~= g);
    assert(file_views(files@) =~= g);
    while i < entries.len()
        invariant
            i <= entries@.len(),
            g == file_views(files@),
            g.to_multiset() == listed_files(entries@).take(i as int).to_multiset(),
            sorted_by_path(g),
        decreases entries.len() - i,
    {
        let (path, bytes) = &entries[i];
        let digest = content_digest(bytes.as_slice());
        let file = CheckpointFile { path: path.clone(), digest, size: bytes.len() as u64 };
        let ghost v = file_view(file);
        assert(v == listed_file(entries@[i as int]));
        let mut p: usize = 0;
        while p < files.len() && !text_less(path.as_str(), files[p].path.as_str())
            invariant
                p <= files@.len(),
                g == file_views(files@),
                v.0 == path@,
                forall|a: int| 0 <= a < p ==> !text_lt(v.0, #[trigger] g[a].0),
            decreases files.len() - p,
        {
            p = p + 1;
        }
        proof {
            let h = g.insert(p as int, v);
            assert forall|a: int, b: int| 0 <= a < b < h.len() implies !text_lt(
                #[trigger] h[b].0,
                #[trigger] h[a].0,
            ) by {
                if b < p {
                } else if a < p && b == p {
                } else if a < p {
                    assert(h[b] == g[b - 1]);
                } else if a == p {
                    assert(h[b] == g[b - 1]);
                    assert(text_lt(v.0, g[p as int].0));
                    if text_lt(g[b - 1].0, v.0) {
                        lemma_text_lt_transitive(g[b - 1].0, v.0, g[p as int].0);
                        if b - 1 == p {
                            lemma_text_lt_irreflexive(g[p as int].0);
                        }
                    }
                } else {
                    assert(h[a] == g[a - 1]);
                    assert(h[b] == g[b - 1]);
                }
            }
            vstd::seq_lib::to_multiset_insert(g, p as int, v);
            vstd::seq_lib::to_multiset_build(listed_files(entries@).take(i as int), v);
            assert(listed_files(entries@).take(i + 1) =~= listed_files(entries@).take(i as int).push(v));
            g = h;
        }
        files.insert(p, file);
        assert(g =~= file_views(files@));
        i = i + 1;
    }
    assert(listed_files(entries@).take(i as int) =~= listed_files(entries@));
    files
}
/// A fetched checkpoint object is intact when it has the listed size and its digest is the
/// one it is stored under.
pub fn check_checkpoint_content(digest: &str, size: u64, bytes: &[u8]) -> (r: Result<
    (),
    JournalError,
>)
    ensures
        r is Ok <==> (bytes@.len() == size && sha256_hex(bytes@) == digest@),
        r is Err ==> r == Err::<(), JournalError>(JournalError::CorruptContent),
{
    if bytes.len() as u64 != size {
        return Err(JournalError::CorruptContent);
    }
    let actual = content_digest(bytes);
    if !str_eq(actual.as_str(), digest) {
        return Err(JournalError::CorruptContent);
    }
    Ok(())
}

pub open spec fn record_ok(record: RecordHeader, partition: u32, position: int) -> bool {
    record.format == JOURNAL_FORMAT && record.partition == partition && record.position == position
        && record.owner_epoch != 0
}

/// How many records recovery returns: those after `after_position` up to the head.
pub open spec fn records_needed(head_position: u64, after_position: u64) -> int {
    if head_position > after_position {
        head_position - after_position
    } else {
        0
    }
}

/// The first `k` steps of the walk back from the head: the `i`th record read must be the
/// record at position `head_position - i`.
pub open spec fn walk_checked(partition: u32, head_position: u64, walked: Seq<RecordHeader>, k: int) -> Result<
    (),
    JournalError,
>
    decreases k,
{
    if k <= 0 {
        Ok(())
    } else {
        match walk_checked(partition, head_position, walked, k - 1) {
            Err(e) => Err(e),
            Ok(()) => {
                let i = k - 1;
                if i >= walked.len() {
                    Err(JournalError::ChainEnded)
                } else if !record_ok(walked[i], partition, head_position - i) {
                    Err(JournalError::InvalidRecord)
                } else {
                    Ok(())
                }
            },
        }
    }
}

/// The records a walk recovers, oldest first.
pub open spec fn oldest_first(walked: Seq<RecordHeader>, n: int) -> Seq<RecordHeader> {
    Seq::new(n as nat, |j: int| walked[n - 1 - j])
}

pub open spec fn record_epochs(records: Seq<RecordHeader>) -> Seq<u64> {
    records.map_values(|r: RecordHeader| r.owner_epoch)
}

/// Recovery of a partition after `after_position`: the records read walking back from the
/// head (`head_position`, zero without a head), newest first, as far as the chain could be
/// read. It returns the records after the position, oldest first, or fails closed on a
/// chain that ends early, a record that is not the expected one, or an owner epoch that
/// goes back or skips a generation.
pub open spec fn spec_recover(partition: u32, head_position: u64, after_position: u64, walked: Seq<RecordHeader>) -> Result<
    Seq<RecordHeader>,
    JournalError,
> {
    let n = records_needed(head_position, after_position);
    match walk_checked(partition, head_position, walked, n) {
        Err(e) => Err(e),
        Ok(()) => if epochs_step_by_generation(record_epochs(oldest_first(walked, n))) {
            Ok(oldest_first(walked, n))
        } else {
            Err(JournalError::NonMonotonicEpoch)
        },
    }
}

pub fn recover_chain(partition: u32, head_position: u64, after_position: u64, walked: &[RecordHeader]) -> (r: Result<
    Vec<RecordHeader>,
    JournalError,
>)
    ensures
        match spec_recover(partition, head_position, after_position, walked@) {
            Ok(rs) => r matches Ok(v) && v@ == rs,
            Err(e) => r matches Err(x) && x == e,
        },
{
    let n: u64 = if head_position > after_position {
        head_position - after_position
    } else {
        0
    };
    let mut i: u64 = 0;
    while i < n
        invariant
            i <= n,
            n as int == records_needed(head_position, after_position),
            n <= head_position,
            walk_checked(partition, head_position, walked@, i as int) == Ok::<(), JournalError>(()),
            i <= walked.len(),
        decreases n - i,
    {
        if i as usize >= walked.len() {
            proof {
                lemma_walk_error_stays(partition, head_position, walked@, i + 1, n as int);
            }
            return Err(JournalError::ChainEnded);
        }
        if check_record(&walked[i as usize], partition, head_position - i).is_err() {
            proof {
                lemma_walk_error_stays(partition, head_position, walked@, i + 1, n as int);
            }
            return Err(JournalError::InvalidRecord);
        }
        i = i + 1;
    }
    let count = n as usize;
    let mut records: Vec<RecordHeader> = Vec::new();
    let mut epochs: Vec<u64> = Vec::new();
    let mut j: usize = 0;
    while j < count
        invariant
            j <= count,
            count == n,
            n <= walked.len(),
            records@.len() == j,
            epochs@.len() == j,
            forall|m: int| 0 <= m < j ==> records@[m] == walked@[count - 1 - m],
            forall|m: int| 0 <= m < j ==> epochs@[m] == records@[m].owner_epoch,
        decreases count - j,
    {
        let rec = walked[count - 1 - j];
        records.push(rec);
        epochs.push(rec.owner_epoch);
        j = j + 1;
    }
    proof {
        assert(records@ =~= oldest_first(walked@, n as int));
        assert(epochs@ =~= record_epochs(records@));
    }
    match check_recovered_epochs(epochs.as_slice()) {
        Ok(()) => Ok(records),
        Err(e) => Err(e),
    }
}

proof fn lemma_walk_error_stays(partition: u32, head_position: u64, walked: Seq<RecordHeader>, a: int, m: int)
    requires
        0 < a <= m,
        walk_checked(partition, head_position, walked, a - 1) is Ok,
        walk_checked(partition, head_position, walked, a) is Err,
    ensures
        walk_checked(partition, head_position, walked, m) == walk_checked(partition, head_position, walked, a),
    decreases m - a,
{
    if a < m {
        lemma_walk_error_stays(partition, head_position, walked, a, m - 1);
    }
}

proof fn lemma_walk_checked_records(partition: u32, head_position: u64, walked: Seq<RecordHeader>, k: int)
    requires
        0 <= k,
        walk_checked(partition, head_position, walked, k) is Ok,
    ensures
        k <= walked.len(),
        forall|i: int| 0 <= i < k ==> record_ok(walked[i], partition, head_position - i),
    decreases k,
{
    if k > 0 {
        lemma_walk_checked_records(partition, head_position, walked, k - 1);
    }
}

/// Recovery returns exactly the records after the position it starts from, oldest first:
/// one per position up to the head, each of the partition with a positive owner epoch, and
/// owner epochs that never go back nor skip a generation.
pub proof fn law_recovery_returns_the_records_after(
    partition: u32,
    head_position: u64,
    after_position: u64,
    walked: Seq<RecordHeader>,
)
    requires
        spec_recover(partition, head_position, after_position, walked) is Ok,
    ensures
        ({
            let rs = spec_recover(partition, head_position, after_position, walked)->Ok_0;
            &&& rs.len() == records_needed(head_position, after_position)
            &&& forall|j: int| 0 <= j < rs.len() ==> rs[j].position == after_position + j + 1
                && rs[j].partition == partition && rs[j].owner_epoch >= 1
            &&& epochs_step_by_generation(record_epochs(rs))
        }),
{
    let n = records_needed(head_position, after_position);
    lemma_walk_checked_records(partition, head_position, walked, n);
    let rs = oldest_first(walked, n);
    assert forall|j: int| 0 <= j < rs.len() implies rs[j].position == after_position + j + 1
        && rs[j].partition == partition && rs[j].owner_epoch >= 1 by {
        assert(record_ok(walked[n - 1 - j], partition, head_position - (n - 1 - j)));
    }
}

} // verus!
