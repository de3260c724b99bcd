//! Durable process ingestion and per-partition execution accounting.
use crate::document::{get, spec_get, JsonValue};
use crate::model::EventTimeGate;
use crate::streaming::ChangeKind;
use crate::relational::{names_are_valid, names_ok, string_views};
use crate::text::{hex_bytes, is_blank, spec_is_blank, str_eq};
use crate::ingest::{records_match, same_contents, IndexedRecord, IndexedRecordView};
use vstd::prelude::*;
use vstd::utf8::*;

verus! {

/// Why a packed process batch was refused.
#[derive(Debug, Clone, Copy, PartialEq, Eq, Structural)]
pub enum PackedBatchError {
    /// Shorter than eight bytes or not starting with `TCP1`.
    InvalidHeader,
    /// The declared event count is zero or above 100000.
    InvalidCount,
    /// A fixed-width record field runs past the end of the body.
    Truncated,
    /// A record key runs past the end of the body.
    KeyTruncated,
    /// A record key is not UTF-8.
    InvalidKey,
    /// A record value runs past the end of the body.
    ValueTruncated,
    /// A record value is not a JSON document.
    InvalidValue,
    /// Bytes follow the last declared record.
    TrailingBytes,
}

/// Whether `bytes` is one JSON document, as `serde_json::from_slice::<serde_json::Value>` accepts it.
pub uninterp spec fn json_text_is_valid(bytes: Seq<u8>) -> bool;

/// Calls `serde_json::from_slice` for a `serde_json::Value` and reports whether it succeeded;
/// the contract claims only that the answer is the named property of the bytes.
#[verifier::external_body]
fn json_value_is_valid(bytes: &[u8]) -> (ok: bool)
    ensures
        ok == json_text_is_valid(bytes@),
{
    serde_json::from_slice::<serde_json::Value>(bytes).is_ok()
}

/// Lowercase hyphenated UUID text: 8-4-4-4-12 hexadecimal digits.
pub open spec fn uuid_hyphenated_text(b: Seq<u8>) -> Seq<char> {
    hex_bytes(b.subrange(0, 4)) + seq!['-'] + hex_bytes(b.subrange(4, 6)) + seq!['-']
        + hex_bytes(b.subrange(6, 8)) + seq!['-'] + hex_bytes(b.subrange(8, 10)) + seq!['-']
        + hex_bytes(b.subrange(10, 16))
}

/// Calls `uuid::Uuid::from_bytes(..).to_string()`; the contract claims the lowercase hyphenated
/// form that the crate's `Display` writes (`fmt.rs`, `format_hyphenated`).
#[verifier::external_body]
fn uuid_text(bytes: &[u8]) -> (text: String)
    requires
        bytes@.len() == 16,
    ensures
        text@ == uuid_hyphenated_text(bytes@),
{
    let array: [u8; 16] = bytes.try_into().unwrap();
    uuid::Uuid::from_bytes(array).to_string()
}

/// Little-endian value of the four bytes at `at`.
pub open spec fn le_u32(b: Seq<u8>, at: int) -> nat {
    (b[at] + 256 * b[at + 1] + 65536 * b[at + 2] + 16777216 * b[at + 3]) as nat
}

/// Little-endian value of the eight bytes at `at`.
pub open spec fn le_u64(b: Seq<u8>, at: int) -> nat {
    le_u32(b, at) + 4294967296 * le_u32(b, at + 4)
}

fn read_le_u32(b: &[u8], at: usize) -> (v: u32)
    requires
        at + 4 <= b@.len(),
    ensures
        v == le_u32(b@, at as int),
{
    (b[at] as u32) + 256 * (b[at + 1] as u32) + 65536 * (b[at + 2] as u32) + 16777216 * (
    b[at + 3] as u32)
}

fn read_le_u64(b: &[u8], at: usize) -> (v: u64)
    requires
        at + 8 <= b@.len(),
    ensures
        v == le_u64(b@, at as int),
{
    let len = b.len();
    assert(at + 8 <= len);
    let low = read_le_u32(b, at) as u64;
    let high = read_le_u32(b, at + 4) as u64;
    low + 4294967296 * high
}

/// One record of a packed batch, as plain values.
pub struct PackedRecordView {
    pub event_time_bits: u64,
    pub key: Seq<char>,
    pub event_id: Seq<char>,
    pub value_json: Seq<u8>,
}

/// One event of a packed batch. The event time is the bit pattern of the little-endian
/// `f64` on the wire, and the value is its validated JSON text.
pub struct PackedProcessRecord {
    pub event_time_bits: u64,
    pub key: String,
    pub event_id: String,
    pub value_json: Vec<u8>,
}

impl View for PackedProcessRecord {
    type V = PackedRecordView;

    open spec fn view(&self) -> PackedRecordView {
        PackedRecordView {
            event_time_bits: self.event_time_bits,
            key: self.key@,
            event_id: self.event_id@,
            value_json: self.value_json@,
        }
    }
}

/// The record that starts at `c`, and the position after it.
pub open spec fn spec_packed_record(b: Seq<u8>, c: int) -> Result<
    (PackedRecordView, int),
    PackedBatchError,
> {
    if c + 32 > b.len() {
        Err(PackedBatchError::Truncated)
    } else {
        let key_start = c + 32;
        let key_end = key_start + le_u32(b, c + 8);
        if key_end > b.len() {
            Err(PackedBatchError::KeyTruncated)
        } else if !valid_utf8(b.subrange(key_start, key_end)) {
            Err(PackedBatchError::InvalidKey)
        } else {
            let value_end = key_end + le_u32(b, c + 12);
            if value_end > b.len() {
                Err(PackedBatchError::ValueTruncated)
            } else if !json_text_is_valid(b.subrange(key_end, value_end)) {
                Err(PackedBatchError::InvalidValue)
            } else {
                Ok(
                    (
                        PackedRecordView {
                            event_time_bits: le_u64(b, c) as u64,
                            key: decode_utf8(b.subrange(key_start, key_end)),
                            event_id: uuid_hyphenated_text(b.subrange(c + 16, c + 32)),
                            value_json: b.subrange(key_end, value_end),
                        },
                        value_end,
                    ),
                )
            }
        }
    }
}

/// `n` consecutive records starting at `c`, and the position after the last.
pub open spec fn spec_packed_records(b: Seq<u8>, c: int, n: nat) -> Result<
    (Seq<PackedRecordView>, int),
    PackedBatchError,
>
    decreases n,
{
    if n == 0 {
        Ok((Seq::empty(), c))
    } else {
        match spec_packed_record(b, c) {
            Err(e) => Err(e),
            Ok((r, next)) => match spec_packed_records(b, next, (n - 1) as nat) {
                Err(e) => Err(e),
                Ok((rs, end)) => Ok((seq![r] + rs, end)),
            },
        }
    }
}

/// The packed batch format: `TCP1`, a little-endian event count, then each event as an
/// eight-byte event time, key and value lengths, a sixteen-byte event identifier, the key
/// and the value.
pub open spec fn spec_parse_packed(b: Seq<u8>) -> Result<Seq<PackedRecordView>, PackedBatchError> {
    if b.len() < 8 || b.subrange(0, 4) != seq![84u8, 67u8, 80u8, 49u8] {
        Err(PackedBatchError::InvalidHeader)
    } else if le_u32(b, 4) == 0 || le_u32(b, 4) > 100000 {
        Err(PackedBatchError::InvalidCount)
    } else {
        match spec_packed_records(b, 8, le_u32(b, 4)) {
            Err(e) => Err(e),
            Ok((rs, end)) => if end != b.len() {
                Err(PackedBatchError::TrailingBytes)
            } else {
                Ok(rs)
            },
        }
    }
}

/// Takes the next `n` bytes at the cursor and advances past them.
pub fn take_packed(body: &[u8], cursor: &mut usize, n: usize) -> (r: Result<Vec<u8>, PackedBatchError>)
    ensures
        r is Ok <==> *old(cursor) + n <= body@.len(),
        r matches Ok(v) ==> v@ == body@.subrange(*old(cursor) as int, *old(cursor) + n)
            && *final(cursor) == *old(cursor) + n,
        r is Err ==> r == Err::<Vec<u8>, PackedBatchError>(PackedBatchError::Truncated)
            && *final(cursor) == *old(cursor),
{
    let len = body.len();
    match cursor.checked_add(n) {
        Some(end) => {
            if end <= body.len() {
                let taken = vstd::slice::slice_to_vec(
                    vstd::slice::slice_subrange(body, *cursor, end),
                );
                *cursor = end;
                Ok(taken)
            } else {
                Err(PackedBatchError::Truncated)
            }
        },
        None => Err(PackedBatchError::Truncated),
    }
}

fn parse_packed_record(body: &[u8], cursor: usize) -> (r: Result<
    (PackedProcessRecord, usize),
    PackedBatchError,
>)
    ensures
        match spec_packed_record(body@, cursor as int) {
            Ok((view, next)) => r matches Ok((record, end)) && record@ == view && end == next,
            Err(e) => r == Err::<(PackedProcessRecord, usize), PackedBatchError>(e),
        },
{
    let len = body.len();
    let mut at = cursor;
    let time_bytes = take_packed(body, &mut at, 8)?;
    let key_len_bytes = take_packed(body, &mut at, 4)?;
    let value_len_bytes = take_packed(body, &mut at, 4)?;
    let id_bytes = take_packed(body, &mut at, 16)?;
    let event_time_bits = read_le_u64(time_bytes.as_slice(), 0);
    let key_len = read_le_u32(key_len_bytes.as_slice(), 0) as usize;
    let value_len = read_le_u32(value_len_bytes.as_slice(), 0) as usize;
    proof {
        assert(le_u64(time_bytes@, 0) == le_u64(body@, cursor as int));
        assert(le_u32(key_len_bytes@, 0) == le_u32(body@, cursor + 8));
        assert(le_u32(value_len_bytes@, 0) == le_u32(body@, cursor + 12));
        assert(id_bytes@ =~= body@.subrange(cursor + 16, cursor + 32));
    }
    let key_end = match at.checked_add(key_len) {
        Some(end) if end <= body.len() => end,
        _ => {
            return Err(PackedBatchError::KeyTruncated);
        },
    };
    let key = match crate::text::utf8_text(vstd::slice::slice_subrange(body, at, key_end)) {
        Some(key) => key,
        None => {
            return Err(PackedBatchError::InvalidKey);
        },
    };
    let value_end = match key_end.checked_add(value_len) {
        Some(end) if end <= body.len() => end,
        _ => {
            return Err(PackedBatchError::ValueTruncated);
        },
    };
    let value_slice = vstd::slice::slice_subrange(body, key_end, value_end);
    if !json_value_is_valid(value_slice) {
        return Err(PackedBatchError::InvalidValue);
    }
    let event_id = uuid_text(id_bytes.as_slice());
    let record = PackedProcessRecord {
        event_time_bits,
        key,
        event_id,
        value_json: vstd::slice::slice_to_vec(value_slice),
    };
    Ok((record, value_end))
}

/// Parses a packed process batch: exactly the events that `spec_parse_packed` describes,
/// or the first error it names.
pub fn parse_packed_process_records(body: &[u8]) -> (r: Result<
    Vec<PackedProcessRecord>,
    PackedBatchError,
>)
    ensures
        match spec_parse_packed(body@) {
            Ok(views) => r matches Ok(records) && records@.map_values(
                |record: PackedProcessRecord| record@,
            ) == views,
            Err(e) => r == Err::<Vec<PackedProcessRecord>, PackedBatchError>(e),
        },
{
    if body.len() < 8 {
        return Err(PackedBatchError::InvalidHeader);
    }
    if !(body[0] == 84 && body[1] == 67 && body[2] == 80 && body[3] == 49) {
        proof {
            assert(body@.subrange(0, 4) != seq![84u8, 67u8, 80u8, 49u8]) by {
                if body@.subrange(0, 4) == seq![84u8, 67u8, 80u8, 49u8] {
                    assert(body@.subrange(0, 4)[0] == 84u8);
                    assert(body@.subrange(0, 4)[1] == 67u8);
                    assert(body@.subrange(0, 4)[2] == 80u8);
                    assert(body@.subrange(0, 4)[3] == 49u8);
                }
            }
        }
        return Err(PackedBatchError::InvalidHeader);
    }
    assert(body@.subrange(0, 4) =~= seq![84u8, 67u8, 80u8, 49u8]);
    let mut cursor: usize = 4;
    let count_bytes = take_packed(body, &mut cursor, 4)?;
    let count = read_le_u32(count_bytes.as_slice(), 0);
    assert(le_u32(count_bytes@, 0) == le_u32(body@, 4));
    if count == 0 || count > 100000 {
        return Err(PackedBatchError::InvalidCount);
    }
    let mut records: Vec<PackedProcessRecord> = Vec::new();
    let mut index: u32 = 0;
    while index < count
        invariant
            cursor <= body@.len(),
            index <= count,
            count == le_u32(body@, 4),
            spec_parse_packed(body@) == match spec_packed_records(
                body@,
                cursor as int,
                (count - index) as nat,
            ) {
                Err(e) => Err(e),
                Ok((rs, end)) => if end != body@.len() {
                    Err(PackedBatchError::TrailingBytes)
                } else {
                    Ok(records@.map_values(|record: PackedProcessRecord| record@) + rs)
                },
            },
        decreases count - index,
    {
        let ghost remaining = (count - index) as nat;
        let ghost before = records@;
        let (record, next) = parse_packed_record(body, cursor)?;
        records.push(record);
        proof {
            assert(records@.map_values(|record: PackedProcessRecord| record@) =~= before.map_values(
                |record: PackedProcessRecord| record@,
            ).push(record@));
            match spec_packed_records(body@, next as int, (remaining - 1) as nat) {
                Err(e) => {},
                Ok((rs, end)) => {
                    assert(before.map_values(|record: PackedProcessRecord| record@) + (seq![record@]
                        + rs) =~= records@.map_values(|record: PackedProcessRecord| record@)
                        + rs);
                },
            }
        }
        cursor = next;
        index = index + 1;
    }
    if cursor != body.len() {
        return Err(PackedBatchError::TrailingBytes);
    }
    proof {
        assert(records@.map_values(|record: PackedProcessRecord| record@) + Seq::empty()
            =~= records@.map_values(|record: PackedProcessRecord| record@));
    }
    Ok(records)
}

/// The execution counters of one process shard.
#[derive(Debug, Clone, Copy, PartialEq, Eq, Structural)]
pub struct ProcessShardState {
    pub next_sequence: u64,
    pub next_output_sequence: u64,
    pub pending: u64,
    pub running: u64,
    pub retry_pending: u64,
    pub retry_running: u64,
    pub completed: u64,
    pub failed: u64,
    pub quarantined: u64,
}

impl ProcessShardState {
    pub open spec fn spec_new() -> Self {
        ProcessShardState {
            next_sequence: 0,
            next_output_sequence: 0,
            pending: 0,
            running: 0,
            retry_pending: 0,
            retry_running: 0,
            completed: 0,
            failed: 0,
            quarantined: 0,
        }
    }

    /// A shard with no work recorded.
    pub fn new() -> (state: Self)
        ensures
            state == (ProcessShardState {
                next_sequence: 0,
                next_output_sequence: 0,
                pending: 0,
                running: 0,
                retry_pending: 0,
                retry_running: 0,
                completed: 0,
                failed: 0,
                quarantined: 0,
            }),
    {
        ProcessShardState {
            next_sequence: 0,
            next_output_sequence: 0,
            pending: 0,
            running: 0,
            retry_pending: 0,
            retry_running: 0,
            completed: 0,
            failed: 0,
            quarantined: 0,
        }
    }
}

impl Default for ProcessShardState {
    /// A shard with no work recorded.
    fn default() -> (state: Self)
        ensures
            state == ProcessShardState::spec_new(),
    {
        ProcessShardState::new()
    }
}

/// Whether a process still has admitted or running work, in its own counters or any shard's.
pub open spec fn spec_has_pending_work(pending: u64, running: u64, shards: Seq<ProcessShardState>) -> bool {
    pending > 0 || running > 0 || exists|i: int|
        0 <= i < shards.len() && (#[trigger] shards[i].pending > 0 || shards[i].running > 0)
}

/// A process's output frontier waits while any of its work is pending or running.
pub fn process_has_pending_work(pending: u64, running: u64, shards: &[ProcessShardState]) -> (b: bool)
    ensures
        b == spec_has_pending_work(pending, running, shards@),
{
    if pending > 0 || running > 0 {
        return true;
    }
    let mut i: usize = 0;
    while i < shards.len()
        invariant
            i <= shards@.len(),
            forall|k: int| 0 <= k < i ==> !(#[trigger] shards@[k].pending > 0 || shards@[k].running > 0),
        decreases shards.len() - i,
    {
        if shards[i].pending > 0 || shards[i].running > 0 {
            return true;
        }
        i = i + 1;
    }
    false
}

/// Frees the concurrency slot an execution held: an isolated retry's slot in the retry budget,
/// any other in the shard's normal concurrency.
pub fn release_process_execution(shard_state: &mut ProcessShardState, isolated_retry: bool)
    ensures
        isolated_retry ==> *final(shard_state) == (ProcessShardState {
            retry_running: if old(shard_state).retry_running > 0 {
                (old(shard_state).retry_running - 1) as u64
            } else {
                0
            },
            ..*old(shard_state)
        }),
        !isolated_retry ==> *final(shard_state) == (ProcessShardState {
            running: if old(shard_state).running > 0 {
                (old(shard_state).running - 1) as u64
            } else {
                0
            },
            ..*old(shard_state)
        }),
{
    if isolated_retry {
        shard_state.retry_running = shard_state.retry_running.saturating_sub(1);
    } else {
        shard_state.running = shard_state.running.saturating_sub(1);
    }
}

/// What happens to an execution that failed.
#[derive(Debug, Clone, Copy, PartialEq, Eq, Structural)]
pub enum ProcessFailureDisposition {
    Retry,
    Quarantine,
}

/// A failed execution is retried until its attempts reach the retry budget, then quarantined.
pub fn process_failure_disposition(attempt: u32, max_attempts: u32) -> (d: ProcessFailureDisposition)
    ensures
        d == (if attempt >= max_attempts {
            ProcessFailureDisposition::Quarantine
        } else {
            ProcessFailureDisposition::Retry
        }),
{
    if attempt >= max_attempts {
        ProcessFailureDisposition::Quarantine
    } else {
        ProcessFailureDisposition::Retry
    }
}

/// `limit` spread over the data shards, rounded up, and at least one.
pub open spec fn spec_per_shard(limit: u32, data_shards: usize) -> int {
    let shards = if data_shards == 0 { 1 } else { data_shards as int };
    let share = (limit as int + shards - 1) / shards;
    if share < 1 { 1 } else { share }
}

fn per_shard(limit: u32, data_shards: usize) -> (share: usize)
    requires
        data_shards <= u32::MAX,
    ensures
        share == spec_per_shard(limit, data_shards),
{
    let shards: u64 = if data_shards == 0 { 1 } else { data_shards as u64 };
    let limit = limit as u64;
    let share = (limit + shards - 1) / shards;
    proof {
        let l = limit as int;
        let d = shards as int;
        assert((l + d - 1) / d <= l) by (nonlinear_arith)
            requires
                d >= 1,
                l >= 0,
        ;
    }
    if share < 1 {
        1
    } else {
        share as usize
    }
}

/// How many keys one shard of a process may run at once.
pub fn sharded_process_concurrency(max_concurrent_keys: u32, data_shards: usize) -> (n: usize)
    requires
        data_shards <= u32::MAX,
    ensures
        n == spec_per_shard(max_concurrent_keys, data_shards),
        n >= 1,
{
    per_shard(max_concurrent_keys, data_shards)
}

/// How many isolated retries one shard of a process may run at once.
pub fn sharded_retry_concurrency(retry_concurrency: u32, data_shards: usize) -> (n: usize)
    requires
        data_shards <= u32::MAX,
    ensures
        n == spec_per_shard(retry_concurrency, data_shards),
        n >= 1,
{
    per_shard(retry_concurrency, data_shards)
}

/// Whether an active process's mailbox has no room left for another input record.
pub fn process_mailbox_is_full(pending: u64, running: u64, retrying: u64, mailbox_capacity: u64) -> (full: bool)
    ensures
        full == (pending + running + retrying >= mailbox_capacity),
{
    let used = (pending as u128) + (running as u128) + (retrying as u128);
    used >= mailbox_capacity as u128
}

/// The identity of a process input event: its own identifier, or its stream position.
pub open spec fn spec_process_event_id(
    event_id: Option<Seq<char>>,
    stream: Seq<char>,
    partition: u32,
    offset: u64,
) -> Seq<char> {
    match event_id {
        Some(id) => id,
        None => "stream:"@ + stream + ":"@ + crate::text::decimal_text(partition as nat) + ":"@
            + crate::text::decimal_text(offset as nat),
    }
}

/// The identifier a process outcome is recorded under.
pub fn process_event_id(event_id: Option<&str>, stream: &str, partition: u32, offset: u64) -> (id: String)
    ensures
        id@ == spec_process_event_id(
            match event_id {
                Some(e) => Some(e@),
                None => None,
            },
            stream@,
            partition,
            offset,
        ),
{
    match event_id {
        Some(e) => e.to_owned(),
        None => {
            let mut id = String::new();
            id.append("stream:");
            id.append(stream);
            id.append(":");
            crate::text::push_radix(&mut id, partition as u64, 0, 10);
            id.append(":");
            crate::text::push_radix(&mut id, offset, 0, 10);
            assert(id@ =~= spec_process_event_id(None, stream@, partition, offset));
            id
        },
    }
}

/// The settings of a process declaration that its validation reads.
pub struct ProcessSettings {
    pub process_id: String,
    pub stream: String,
    pub workflow_type: String,
    pub task_queue: String,
    pub build_id: String,
    pub state_version: u32,
    pub max_concurrent_keys: u32,
    pub mailbox_capacity: u64,
    pub retry_concurrency: u32,
    pub max_attempts: u32,
    pub batch_max_size: u32,
    pub versioned_streams: Vec<String>,
}

/// Why a process declaration was refused.
#[derive(Debug, Clone, Copy, PartialEq, Eq, Structural)]
pub enum ProcessRequestError {
    /// The process id, stream, workflow type, task queue or build id is blank.
    EmptyIdentifier,
    /// A state version, concurrency, retry, capacity or batch setting is out of range, or a
    /// versioned stream is blank or repeated.
    InvalidSettings,
}

/// The first rule a process declaration breaks, if any. `batch_delay_ok` says whether its
/// batch delay is a finite number of seconds, not below zero.
pub open spec fn spec_check_process_settings(s: ProcessSettings, batch_delay_ok: bool) -> Result<
    (),
    ProcessRequestError,
> {
    if spec_is_blank(s.process_id@) || spec_is_blank(s.stream@) || spec_is_blank(s.workflow_type@)
        || spec_is_blank(s.task_queue@) || spec_is_blank(s.build_id@) {
        Err(ProcessRequestError::EmptyIdentifier)
    } else if s.state_version == 0 || s.max_concurrent_keys == 0 || s.mailbox_capacity == 0
        || s.retry_concurrency == 0 || s.max_attempts == 0 || s.batch_max_size == 0
        || s.batch_max_size > 16_384 || !batch_delay_ok || !names_are_valid(
        string_views(s.versioned_streams@),
    ) {
        Err(ProcessRequestError::InvalidSettings)
    } else {
        Ok(())
    }
}

pub fn check_process_settings(s: &ProcessSettings, batch_delay_ok: bool) -> (r: Result<
    (),
    ProcessRequestError,
>)
    ensures
        r == spec_check_process_settings(*s, batch_delay_ok),
{
    if is_blank(s.process_id.as_str()) || is_blank(s.stream.as_str()) || is_blank(
        s.workflow_type.as_str(),
    ) || is_blank(s.task_queue.as_str()) || is_blank(s.build_id.as_str()) {
        return Err(ProcessRequestError::EmptyIdentifier);
    }
    if s.state_version == 0 || s.max_concurrent_keys == 0 || s.mailbox_capacity == 0
        || s.retry_concurrency == 0 || s.max_attempts == 0 || s.batch_max_size == 0
        || s.batch_max_size > 16_384 || !batch_delay_ok || !names_ok(&s.versioned_streams) {
        return Err(ProcessRequestError::InvalidSettings);
    }
    Ok(())
}

/// Why a redeclared process may not move to the requested state version.
#[derive(Debug, Clone, Copy, PartialEq, Eq, Structural)]
pub enum VersionChangeError {
    /// The requested version is older than the stored one.
    Downgrade,
    /// Some version between the stored one and the requested one declares no migration.
    MissingMigration,
}

/// A process's state may stay at its version or move up, and moving up needs a declared
/// migration from every version it passes.
pub open spec fn spec_check_version_change(existing: u32, requested: u32, migrations_from: Seq<
    u32,
>) -> Result<(), VersionChangeError> {
    if requested < existing {
        Err(VersionChangeError::Downgrade)
    } else if requested > existing && !(forall|v: u32|
        existing <= v < requested ==> #[trigger] migrations_from.contains(v)) {
        Err(VersionChangeError::MissingMigration)
    } else {
        Ok(())
    }
}

pub fn check_version_change(existing: u32, requested: u32, migrations_from: &[u32]) -> (r: Result<
    (),
    VersionChangeError,
>)
    ensures
        r == spec_check_version_change(existing, requested, migrations_from@),
{
    if requested < existing {
        return Err(VersionChangeError::Downgrade);
    }
    let mut v: u32 = existing;
    while v < requested
        invariant
            existing <= v <= requested,
            forall|w: u32| existing <= w < v ==> #[trigger] migrations_from@.contains(w),
        decreases requested - v,
    {
        let mut found = false;
        let mut i: usize = 0;
        while i < migrations_from.len()
            invariant
                i <= migrations_from@.len(),
                found == exists|k: int| 0 <= k < i && migrations_from@[k] == v,
            decreases migrations_from.len() - i,
        {
            if migrations_from[i] == v {
                found = true;
            }
            i = i + 1;
        }
        if !found {
            assert(!migrations_from@.contains(v));
            return Err(VersionChangeError::MissingMigration);
        }
        v = v + 1;
    }
    Ok(())
}

/// Two declarations of a process may differ in their settings but not in what the process
/// reads, runs and keys by.
pub struct ProcessIdentity {
    pub stream: String,
    pub workflow_type: String,
    pub key_field: Option<String>,
    pub event_time_field: Option<String>,
    pub event_time_gate: EventTimeGate,
    pub direct_ingress: bool,
}

pub open spec fn opt_text_eq(a: Option<String>, b: Option<String>) -> bool {
    match (a, b) {
        (Some(x), Some(y)) => x@ == y@,
        (None, None) => true,
        _ => false,
    }
}

pub open spec fn spec_same_process_identity(a: ProcessIdentity, b: ProcessIdentity) -> bool {
    a.stream@ == b.stream@ && a.workflow_type@ == b.workflow_type@ && opt_text_eq(
        a.key_field,
        b.key_field,
    ) && opt_text_eq(a.event_time_field, b.event_time_field) && a.event_time_gate
        == b.event_time_gate && a.direct_ingress == b.direct_ingress
}

fn opt_str_eq(a: &Option<String>, b: &Option<String>) -> (eq: bool)
    ensures
        eq == opt_text_eq(*a, *b),
{
    match (a, b) {
        (Some(x), Some(y)) => str_eq(x.as_str(), y.as_str()),
        (None, None) => true,
        _ => false,
    }
}

/// Whether a redeclaration keeps the process's input, workflow, key, event-time field,
/// gate and ingress mode, which is what allows it to update the other settings.
pub fn same_process_identity(a: &ProcessIdentity, b: &ProcessIdentity) -> (same: bool)
    ensures
        same == spec_same_process_identity(*a, *b),
{
    str_eq(a.stream.as_str(), b.stream.as_str()) && str_eq(
        a.workflow_type.as_str(),
        b.workflow_type.as_str(),
    ) && opt_str_eq(&a.key_field, &b.key_field) && opt_str_eq(
        &a.event_time_field,
        &b.event_time_field,
    ) && a.event_time_gate == b.event_time_gate && a.direct_ingress == b.direct_ingress
}



/// A redeclaration keeps the process's identity only when it names the same input stream,
/// workflow type, key field, event-time field, gate and ingress mode; a declaration that
/// changes any of them for a stored process is refused as an identity change, whatever
/// else it asks.
pub proof fn law_redeclaration_keeps_identity(
    stored: ProcessIdentity,
    version: u32,
    requested: ProcessIdentity,
    state_version: u32,
    migrations_from: Seq<u32>,
    update_would_cycle: bool,
    backlog_keys: Seq<Option<String>>,
    mailbox_capacity: u64,
)
    ensures
        spec_same_process_identity(stored, requested) ==> {
            &&& stored.stream@ == requested.stream@
            &&& stored.workflow_type@ == requested.workflow_type@
            &&& (stored.key_field is Some <==> requested.key_field is Some)
            &&& (stored.key_field is Some ==> stored.key_field->0@ == requested.key_field->0@)
            &&& (stored.event_time_field is Some <==> requested.event_time_field is Some)
            &&& (stored.event_time_field is Some ==> stored.event_time_field->0@
                == requested.event_time_field->0@)
            &&& stored.event_time_gate == requested.event_time_gate
            &&& stored.direct_ingress == requested.direct_ingress
        },
        !spec_same_process_identity(stored, requested) ==> spec_declaration_error(
            Some((stored, version)),
            requested,
            state_version,
            migrations_from,
            update_would_cycle,
            backlog_keys,
            mailbox_capacity,
        ) == Some(DeclarationError::IdentityChanged),
        (stored.stream@ == requested.stream@ && stored.workflow_type@ == requested.workflow_type@
            && stored.key_field == requested.key_field && stored.event_time_field
            == requested.event_time_field && stored.event_time_gate == requested.event_time_gate
            && stored.direct_ingress == requested.direct_ingress) ==> spec_same_process_identity(
            stored,
            requested,
        ),
{
}
/// Why a process declaration cannot be stored.
#[derive(Debug, Clone, Copy, PartialEq, Eq, Structural)]
pub enum DeclarationError {
    /// The stored process reads, runs or keys by something else than the declaration.
    IdentityChanged,
    /// The declaration moves the stored state version in a way that is not allowed.
    Version(VersionChangeError),
    /// The declaration's inputs would be reached from the process's own output stream.
    EdgeCycle,
    /// The stream already holds more records than the new process's mailbox can take.
    BackfillExceedsCapacity,
    /// A record of the stream to backfill has no key, or an empty one.
    MissingKey,
}

/// What storing a process declaration does.
pub enum DeclarationPlan {
    /// The stored process keeps its identity and takes the declaration's settings.
    Update,
    /// A new process is stored with one pending mailbox item per backlog record, keyed as
    /// listed, and is registered on its input stream when `subscribe` holds.
    Create { backfill_keys: Vec<String>, subscribe: bool },
}

pub open spec fn key_present(key: Option<String>) -> bool {
    key is Some && key->0@.len() > 0
}

pub open spec fn key_texts(keys: Seq<Option<String>>) -> Seq<Seq<char>> {
    keys.map_values(|k: Option<String>| match k { Some(s) => s@, None => Seq::<char>::empty() })
}

/// The first rule that storing a declaration breaks, if any. `existing` is the stored
/// process's identity and state version; `update_would_cycle` says whether the process's
/// output stream reaches one of the declaration's inputs; `backlog_keys` are the keys of
/// the records already on the input stream, in stream order.
pub open spec fn spec_declaration_error(
    existing: Option<(ProcessIdentity, u32)>,
    requested: ProcessIdentity,
    state_version: u32,
    migrations_from: Seq<u32>,
    update_would_cycle: bool,
    backlog_keys: Seq<Option<String>>,
    mailbox_capacity: u64,
) -> Option<DeclarationError> {
    match existing {
        Some((identity, version)) => if !spec_same_process_identity(identity, requested) {
            Some(DeclarationError::IdentityChanged)
        } else {
            match spec_check_version_change(version, state_version, migrations_from) {
                Err(e) => Some(DeclarationError::Version(e)),
                Ok(()) => if update_would_cycle {
                    Some(DeclarationError::EdgeCycle)
                } else {
                    None
                },
            }
        },
        None => if requested.direct_ingress {
            None
        } else if backlog_keys.len() > mailbox_capacity {
            Some(DeclarationError::BackfillExceedsCapacity)
        } else if exists|i: int| 0 <= i < backlog_keys.len() && !key_present(#[trigger] backlog_keys[i]) {
            Some(DeclarationError::MissingKey)
        } else {
            None
        },
    }
}

/// Plans the storing of a process declaration: a redeclaration with the same identity
/// updates the stored settings after its version change is checked; a first declaration
/// backfills the mailbox from the input stream's records, unless the process takes direct
/// ingress, and subscribes to the stream in that case.
pub fn plan_declaration(
    existing: Option<(&ProcessIdentity, u32)>,
    requested: &ProcessIdentity,
    state_version: u32,
    migrations_from: &[u32],
    update_would_cycle: bool,
    backlog_keys: &[Option<String>],
    mailbox_capacity: u64,
) -> (r: Result<DeclarationPlan, DeclarationError>)
    ensures
        ({
            let stored = match existing {
                Some((identity, version)) => Some((*identity, version)),
                None => None,
            };
            let error = spec_declaration_error(
                stored,
                *requested,
                state_version,
                migrations_from@,
                update_would_cycle,
                backlog_keys@,
                mailbox_capacity,
            );
            &&& (r is Err <==> error is Some)
            &&& (r matches Err(e) ==> error == Some(e))
            &&& (r matches Ok(p) ==> (p is Update <==> existing is Some))
            &&& (r matches Ok(DeclarationPlan::Create { backfill_keys, subscribe }) ==> (
                subscribe == !requested.direct_ingress
                && string_views(backfill_keys@) == (if requested.direct_ingress {
                    Seq::<Seq<char>>::empty()
                } else {
                    key_texts(backlog_keys@)
                })))
        }),
{
    match existing {
        Some((identity, version)) => {
            if !same_process_identity(identity, requested) {
                return Err(DeclarationError::IdentityChanged);
            }
            match check_version_change(version, state_version, migrations_from) {
                Err(e) => return Err(DeclarationError::Version(e)),
                Ok(()) => {},
            }
            if update_would_cycle {
                return Err(DeclarationError::EdgeCycle);
            }
            Ok(DeclarationPlan::Update)
        },
        None => {
            if requested.direct_ingress {
                proof {
                    assert(string_views(Seq::<String>::empty()) =~= Seq::<Seq<char>>::empty());
                }
                return Ok(DeclarationPlan::Create { backfill_keys: Vec::new(), subscribe: false });
            }
            if backlog_keys.len() as u64 > mailbox_capacity {
                return Err(DeclarationError::BackfillExceedsCapacity);
            }
            let mut keys: Vec<String> = Vec::new();
            let mut i: usize = 0;
            while i < backlog_keys.len()
                invariant
                    i <= backlog_keys@.len(),
                    keys@.len() == i,
                    string_views(keys@) =~= key_texts(backlog_keys@).take(i as int),
                    forall|j: int| 0 <= j < i ==> key_present(#[trigger] backlog_keys@[j]),
                    existing is None,
                    !requested.direct_ingress,
                    backlog_keys@.len() <= mailbox_capacity,
                decreases backlog_keys.len() - i,
            {
                match &backlog_keys[i] {
                    Some(k) if k.as_str().unicode_len() > 0 => {
                        keys.push(k.clone());
                    },
                    _ => {
                        assert(!key_present(backlog_keys@[i as int]));
                        assert(exists|j: int|
                            0 <= j < backlog_keys@.len() && !key_present(#[trigger] backlog_keys@[j]));
                        return Err(DeclarationError::MissingKey);
                    },
                }
                i = i + 1;
            }
            assert(key_texts(backlog_keys@).take(i as int) =~= key_texts(backlog_keys@));
            Ok(DeclarationPlan::Create { backfill_keys: keys, subscribe: true })
        },
    }
}
/// Why a process handler's result is not a state transition.
#[derive(Debug, Clone, Copy, PartialEq, Eq, Structural)]
pub enum TransitionError {
    /// The result is not an object marked `"__highwater_transition__": true`.
    InvalidTransition,
    /// The transition names no next state.
    MissingState,
}

/// The next state and the optional output of a completed process handler, which must
/// return an object marked as a transition; an output of `null` is no output.
pub open spec fn spec_process_transition(result: Option<JsonValue>) -> Result<
    (JsonValue, Option<JsonValue>),
    TransitionError,
> {
    match result {
        Some(returned) => if returned is Object && spec_get(returned, "__highwater_transition__"@)
            == Some(JsonValue::Bool(true)) {
            match spec_get(returned, "state"@) {
                None => Err(TransitionError::MissingState),
                Some(state) => Ok(
                    (
                        state,
                        match spec_get(returned, "emit"@) {
                            Some(out) => if out is Null {
                                None
                            } else {
                                Some(out)
                            },
                            None => None,
                        },
                    ),
                ),
            }
        } else {
            Err(TransitionError::InvalidTransition)
        },
        None => Err(TransitionError::InvalidTransition),
    }
}

/// Reads the state transition that a completed process handler returned.
pub fn process_transition<'a>(result: Option<&'a JsonValue>) -> (r: Result<
    (&'a JsonValue, Option<&'a JsonValue>),
    TransitionError,
>)
    ensures
        match spec_process_transition(
            match result {
                Some(v) => Some(*v),
                None => None,
            },
        ) {
            Ok((state, out)) => r matches Ok((st, o)) && *st == state && match o {
                Some(x) => out == Some(*x),
                None => out is None,
            },
            Err(e) => r == Err::<(&JsonValue, Option<&JsonValue>), TransitionError>(e),
        },
{
    let returned = match result {
        Some(v) => v,
        None => {
            return Err(TransitionError::InvalidTransition);
        },
    };
    let is_object = match returned {
        JsonValue::Object(_) => true,
        _ => false,
    };
    if !is_object {
        return Err(TransitionError::InvalidTransition);
    }
    match get(returned, "__highwater_transition__") {
        Some(JsonValue::Bool(true)) => {},
        _ => {
            return Err(TransitionError::InvalidTransition);
        },
    }
    let state = match get(returned, "state") {
        Some(v) => v,
        None => {
            return Err(TransitionError::MissingState);
        },
    };
    let out = match get(returned, "emit") {
        Some(JsonValue::Null) => None,
        Some(v) => Some(v),
        None => None,
    };
    Ok((state, out))
}

/// The changelog entries a process output writes: an update pair when the key already
/// had an output, otherwise an insert.
pub fn output_change_kinds(has_prior_output: bool) -> (kinds: Vec<ChangeKind>)
    ensures
        kinds@ == if has_prior_output {
            seq![ChangeKind::UpdateBefore, ChangeKind::UpdateAfter]
        } else {
            seq![ChangeKind::Insert]
        },
{
    if has_prior_output {
        vec![ChangeKind::UpdateBefore, ChangeKind::UpdateAfter]
    } else {
        vec![ChangeKind::Insert]
    }
}

/// The share of a process's mailbox capacity that one data shard holds: the capacity
/// divided by the shard count, rounded up.
pub open spec fn spec_shard_capacity(mailbox_capacity: u64, data_shards: nat) -> int {
    (mailbox_capacity as int + data_shards - 1) / (data_shards as int)
}

/// Whether a process shard has room for `new_records` more events beside its pending,
/// running and retrying ones.
pub fn shard_mailbox_admits(
    state: &ProcessShardState,
    new_records: u64,
    mailbox_capacity: u64,
    data_shards: usize,
) -> (admits: bool)
    requires
        data_shards >= 1,
    ensures
        admits == (state.pending + state.running + state.retry_pending + state.retry_running
            + new_records <= spec_shard_capacity(mailbox_capacity, data_shards as nat)),
{
    let shards = data_shards as u128;
    let capacity = (mailbox_capacity as u128 + shards - 1) / shards;
    let used = state.pending as u128 + state.running as u128 + state.retry_pending as u128
        + state.retry_running as u128 + new_records as u128;
    used <= capacity
}

/// The first sequence number that no process shard may reach: shard sequences use the low
/// 56 bits.
pub open spec fn shard_sequence_limit() -> int {
    0x100_0000_0000_0000
}

/// The global sequence of the `n`th event of a shard: the shard number in the top byte and
/// `n` below it.
pub open spec fn spec_shard_sequence(shard: int, n: int) -> int {
    shard * shard_sequence_limit() + n
}

/// Why a shard could not number another event.
#[derive(Debug, Clone, Copy, PartialEq, Eq, Structural)]
pub enum SequenceError {
    /// The shard has used its whole sequence space.
    Exhausted,
}

/// Numbers the next event of a shard: returns the shard's new counter and the event's
/// global sequence.
pub fn next_shard_sequence(shard: usize, next_sequence: u64) -> (r: Result<(u64, u64), SequenceError>)
    requires
        shard < 256,
    ensures
        next_sequence + 1 >= shard_sequence_limit() ==> r == Err::<(u64, u64), SequenceError>(
            SequenceError::Exhausted,
        ),
        next_sequence + 1 < shard_sequence_limit() ==> (r matches Ok((n, seq)) && n
            == next_sequence + 1 && seq == spec_shard_sequence(shard as int, n as int)),
{
    if next_sequence >= 0xff_ffff_ffff_ffff {
        return Err(SequenceError::Exhausted);
    }
    let n = next_sequence + 1;
    let high = (shard as u64) << 56u64;
    let seq = high | n;
    assert(high == (shard as u64) * 0x100_0000_0000_0000u64 && (high | n) == high + n) by (bit_vector)
        requires
            shard < 256,
            n < 0x100_0000_0000_0000u64,
            high == (shard as u64) << 56u64,
    ;
    Ok((n, seq))
}

/// Event sequences of different shards never collide, and within a shard they rise with
/// the shard's counter: the global order extends every shard's own order.
pub proof fn law_shard_sequences_are_distinct(a: int, n: int, b: int, m: int)
    requires
        0 <= a < 256,
        0 <= b < 256,
        0 <= n < shard_sequence_limit(),
        0 <= m < shard_sequence_limit(),
    ensures
        a != b ==> spec_shard_sequence(a, n) != spec_shard_sequence(b, m),
        a == b ==> (n < m <==> spec_shard_sequence(a, n) < spec_shard_sequence(b, m)),
{
    if a < b {
        assert(a * shard_sequence_limit() + shard_sequence_limit() <= b * shard_sequence_limit())
            by (nonlinear_arith)
            requires
                a < b,
        ;
    } else if b < a {
        assert(b * shard_sequence_limit() + shard_sequence_limit() <= a * shard_sequence_limit())
            by (nonlinear_arith)
            requires
                b < a,
        ;
    }
}

/// The ready executions an activation batch takes, by position among the candidates:
/// in order, at most `max_size` of them, skipping retries once `retry_slots` are used.
pub open spec fn spec_select_batch(
    is_retry: Seq<bool>,
    from: int,
    max_size: nat,
    retry_slots: nat,
    taken: nat,
) -> Seq<int>
    decreases is_retry.len() - from,
{
    if from < 0 || from >= is_retry.len() || taken >= max_size {
        Seq::empty()
    } else if is_retry[from] && retry_slots == 0 {
        spec_select_batch(is_retry, from + 1, max_size, retry_slots, taken)
    } else {
        seq![from] + spec_select_batch(
            is_retry,
            from + 1,
            max_size,
            if is_retry[from] {
                (retry_slots - 1) as nat
            } else {
                retry_slots
            },
            taken + 1,
        )
    }
}

/// Chooses the executions of one activation batch among the ready candidates of a shard,
/// given which of them are retries.
pub fn select_batch(is_retry: &[bool], max_size: usize, retry_slots: usize) -> (selected: Vec<usize>)
    ensures
        selected@.len() == spec_select_batch(is_retry@, 0, max_size as nat, retry_slots as nat, 0).len(),
        forall|k: int|
            0 <= k < selected@.len() ==> #[trigger] selected@[k] as int == spec_select_batch(
                is_retry@,
                0,
                max_size as nat,
                retry_slots as nat,
                0,
            )[k],
{
    let ghost whole = spec_select_batch(is_retry@, 0, max_size as nat, retry_slots as nat, 0);
    let mut selected: Vec<usize> = Vec::new();
    let mut slots = retry_slots;
    let mut i: usize = 0;
    assert(selected@.map_values(|p: usize| p as int) =~= Seq::<int>::empty());
    while i < is_retry.len() && selected.len() < max_size
        invariant
            i <= is_retry@.len(),
            selected@.len() <= max_size,
            whole == spec_select_batch(is_retry@, 0, max_size as nat, retry_slots as nat, 0),
            whole == selected@.map_values(|p: usize| p as int) + spec_select_batch(
                is_retry@,
                i as int,
                max_size as nat,
                slots as nat,
                selected@.len(),
            ),
        decreases is_retry.len() - i,
    {
        if is_retry[i] && slots == 0 {
            i = i + 1;
        } else {
            if is_retry[i] {
                slots = slots - 1;
            }
            let ghost before = selected@.map_values(|p: usize| p as int);
            selected.push(i);
            assert(selected@.map_values(|p: usize| p as int) =~= before + seq![i as int]);
            i = i + 1;
        }
    }
    assert(spec_select_batch(is_retry@, i as int, max_size as nat, slots as nat, selected@.len())
        =~= Seq::<int>::empty());
    assert(whole =~= selected@.map_values(|p: usize| p as int));
    selected
}

/// The retries among the positions a batch takes.
pub open spec fn spec_retries_in(is_retry: Seq<bool>, picked: Seq<int>) -> nat
    decreases picked.len(),
{
    if picked.len() == 0 {
        0
    } else {
        (if is_retry[picked[0]] {
            1nat
        } else {
            0nat
        }) + spec_retries_in(is_retry, picked.drop_first())
    }
}

/// Every position lies in `lo..hi` and each comes after the one before it.
pub open spec fn increasing_within(s: Seq<int>, lo: int, hi: int) -> bool {
    &&& forall|a: int| 0 <= a < s.len() ==> lo <= #[trigger] s[a] < hi
    &&& forall|a: int, b: int| 0 <= a < b < s.len() ==> #[trigger] s[a] < #[trigger] s[b]
}

/// A batch keeps the shard's limits: it takes at most `max_size` executions and at most
/// `retry_slots` retries, each at most once and in the order they became ready.
pub proof fn law_batch_respects_budget(
    is_retry: Seq<bool>,
    from: int,
    max_size: nat,
    retry_slots: nat,
    taken: nat,
)
    requires
        0 <= from,
        taken <= max_size,
    ensures
        spec_select_batch(is_retry, from, max_size, retry_slots, taken).len() + taken <= max_size,
        spec_retries_in(is_retry, spec_select_batch(is_retry, from, max_size, retry_slots, taken))
            <= retry_slots,
        increasing_within(
            spec_select_batch(is_retry, from, max_size, retry_slots, taken),
            from,
            is_retry.len() as int,
        ),
    decreases is_retry.len() - from,
{
    let picked = spec_select_batch(is_retry, from, max_size, retry_slots, taken);
    if from >= is_retry.len() || taken >= max_size {
    } else if is_retry[from] && retry_slots == 0 {
        law_batch_respects_budget(is_retry, from + 1, max_size, retry_slots, taken);
    } else {
        let slots = if is_retry[from] {
            (retry_slots - 1) as nat
        } else {
            retry_slots
        };
        law_batch_respects_budget(is_retry, from + 1, max_size, slots, taken + 1);
        let rest = spec_select_batch(is_retry, from + 1, max_size, slots, taken + 1);
        assert(picked.drop_first() =~= rest);
        assert(picked[0] == from);
        assert forall|a: int| 0 <= a < picked.len() implies from <= #[trigger] picked[a]
            < is_retry.len() by {
            if a > 0 {
                assert(picked[a] == rest[a - 1]);
            }
        }
        assert forall|a: int, b: int| 0 <= a < b < picked.len() implies #[trigger] picked[a]
            < #[trigger] picked[b] by {
            assert(picked[b] == rest[b - 1]);
            if a > 0 {
                assert(picked[a] == rest[a - 1]);
            }
        }
    }
}

/// Whether the positions follow one another with no gap, so that one range covers them.
pub fn is_contiguous(positions: &[usize]) -> (contiguous: bool)
    ensures
        contiguous == forall|k: int|
            0 < k < positions@.len() ==> #[trigger] positions@[k] == positions@[k - 1] + 1,
{
    let mut k: usize = 1;
    while k < positions.len()
        invariant
            1 <= k,
            forall|j: int| 0 < j < k && j < positions@.len() ==> #[trigger] positions@[j]
                == positions@[j - 1] + 1,
        decreases positions.len() - k,
    {
        if positions[k - 1] >= usize::MAX || positions[k] != positions[k - 1] + 1 {
            assert(positions@[k as int] != positions@[k - 1] + 1);
            return false;
        }
        k = k + 1;
    }
    true
}

/// The shard counters after a batch takes `retries` retries, `promoted` of which held a
/// normal concurrency slot until now: they move to the retry budget.
pub fn take_batch_retries(state: &mut ProcessShardState, retries: u64, promoted: u64)
    requires
        old(state).retry_running + retries <= u64::MAX,
    ensures
        *final(state) == (ProcessShardState {
            running: if old(state).running >= promoted {
                (old(state).running - promoted) as u64
            } else {
                0
            },
            retry_pending: if old(state).retry_pending >= retries {
                (old(state).retry_pending - retries) as u64
            } else {
                0
            },
            retry_running: (old(state).retry_running + retries) as u64,
            ..*old(state)
        }),
{
    state.running = state.running.saturating_sub(promoted);
    state.retry_pending = state.retry_pending.saturating_sub(retries);
    state.retry_running = state.retry_running + retries;
}

/// How many records an ingress batch of a process partition collects before it commits.
pub open spec fn ingress_batch_records() -> nat {
    10_000
}

/// What the partition loop does with the next command while it collects an ingress batch.
#[derive(Debug, Clone, Copy, PartialEq, Eq, Structural)]
pub enum BatchEvent {
    /// Another ingress request with this many records.
    Ingress(usize),
    /// A poll, completion or renewal, which must wait for the batch.
    OtherCommand,
    /// The command channel closed.
    Closed,
    /// The collection deadline passed.
    Deadline,
}

#[derive(Debug, Clone, Copy, PartialEq, Eq, Structural)]
pub enum BatchStep {
    /// Keep collecting; the batch now holds this many records.
    Collect(usize),
    /// Commit the batch; `defer` says that the command that ended it runs next.
    Commit { defer: bool },
}

/// One step of collecting an ingress batch that holds `collected` records.
pub fn ingress_batch_step(collected: usize, event: BatchEvent) -> (step: BatchStep)
    requires
        event matches BatchEvent::Ingress(n) ==> collected + n <= usize::MAX,
    ensures
        step == match event {
            BatchEvent::Ingress(n) => if collected + n < ingress_batch_records() {
                BatchStep::Collect((collected + n) as usize)
            } else {
                BatchStep::Commit { defer: false }
            },
            BatchEvent::OtherCommand => BatchStep::Commit { defer: true },
            _ => BatchStep::Commit { defer: false },
        },
{
    match event {
        BatchEvent::Ingress(n) => {
            let total = collected + n;
            if total < 10_000 {
                BatchStep::Collect(total)
            } else {
                BatchStep::Commit { defer: false }
            }
        },
        BatchEvent::OtherCommand => BatchStep::Commit { defer: true },
        BatchEvent::Closed => BatchStep::Commit { defer: false },
        BatchEvent::Deadline => BatchStep::Commit { defer: false },
    }
}

pub open spec fn spec_output_sink(process_id: Seq<char>) -> Seq<char> {
    "process:"@ + process_id
}

pub open spec fn spec_output_message_id(process_id: Seq<char>, sequence: u64) -> Seq<char> {
    "process:"@ + process_id + ":"@ + crate::text::decimal_text(sequence as nat)
}

/// The outbox sink and message id of a process output: the output of the input record
/// with this sequence always gets the same id, so redelivery can be recognized.
pub fn process_output_identity(process_id: &str, sequence: u64) -> (r: (String, String))
    ensures
        r.0@ == spec_output_sink(process_id@),
        r.1@ == spec_output_message_id(process_id@, sequence),
{
    let mut sink = String::new();
    sink.append("process:");
    sink.append(process_id);
    let mut message_id = String::new();
    message_id.append("process:");
    message_id.append(process_id);
    message_id.append(":");
    crate::text::push_radix(&mut message_id, sequence, 0, 10);
    (sink, message_id)
}

/// Outputs of different input records of a process never share a message id.
pub proof fn law_output_message_ids_are_distinct(process_id: Seq<char>, a: u64, b: u64)
    requires
        a != b,
    ensures
        spec_output_message_id(process_id, a) != spec_output_message_id(process_id, b),
{
    let prefix = "process:"@ + process_id + ":"@;
    let x = spec_output_message_id(process_id, a);
    let y = spec_output_message_id(process_id, b);
    if x == y {
        assert(x.subrange(prefix.len() as int, x.len() as int) =~= crate::text::decimal_text(
            a as nat,
        ));
        assert(y.subrange(prefix.len() as int, y.len() as int) =~= crate::text::decimal_text(
            b as nat,
        ));
        crate::text::lemma_decimal_injective(a as nat, b as nat);
    }
}

/// What a failed execution does to its shard: it frees its slot, and then either enters
/// quarantine, counted as failed, or waits as a pending retry. Returns the execution's new
/// attempt count and what became of it.
pub fn fail_execution(
    state: &mut ProcessShardState,
    attempt: u32,
    isolated_retry: bool,
    max_attempts: u32,
) -> (r: (u32, ProcessFailureDisposition))
    requires
        old(state).failed < u64::MAX,
        old(state).quarantined < u64::MAX,
        old(state).retry_pending < u64::MAX,
    ensures
        r.0 == (if attempt == u32::MAX {
            attempt
        } else {
            (attempt + 1) as u32
        }),
        r.1 == (if r.0 >= max_attempts {
            ProcessFailureDisposition::Quarantine
        } else {
            ProcessFailureDisposition::Retry
        }),
        ({
            let released = ProcessShardState {
                running: if !isolated_retry && old(state).running > 0 {
                    (old(state).running - 1) as u64
                } else {
                    old(state).running
                },
                retry_running: if isolated_retry && old(state).retry_running > 0 {
                    (old(state).retry_running - 1) as u64
                } else {
                    old(state).retry_running
                },
                ..*old(state)
            };
            *final(state) == if r.1 == ProcessFailureDisposition::Quarantine {
                ProcessShardState {
                    failed: (released.failed + 1) as u64,
                    quarantined: (released.quarantined + 1) as u64,
                    ..released
                }
            } else {
                ProcessShardState { retry_pending: (released.retry_pending + 1) as u64, ..released }
            }
        }),
{
    release_process_execution(state, isolated_retry);
    let next = attempt.saturating_add(1);
    let disposition = process_failure_disposition(next, max_attempts);
    match disposition {
        ProcessFailureDisposition::Quarantine => {
            state.failed = state.failed + 1;
            state.quarantined = state.quarantined + 1;
        },
        ProcessFailureDisposition::Retry => {
            state.retry_pending = state.retry_pending + 1;
        },
    }
    (next, disposition)
}

/// Whether the key at position `i` of the mailbox also appears earlier in it.
pub open spec fn key_seen_before(keys: Seq<Seq<char>>, i: int) -> bool {
    exists|j: int| 0 <= j < i && keys[j] == keys[i]
}

/// Dispatch over the first `n` mailbox items, in order: the positions started and the
/// number of running executions after them. An item starts while fewer than `limit`
/// executions run, if it is the first item of its key in the mailbox, its key has no
/// execution in flight (`busy`) and it may run now (`eligible`).
pub open spec fn spec_dispatch(
    keys: Seq<Seq<char>>,
    busy: Seq<bool>,
    eligible: Seq<bool>,
    running: nat,
    limit: nat,
    n: int,
) -> (Seq<int>, nat)
    decreases n,
{
    if n <= 0 {
        (Seq::empty(), running)
    } else {
        let (started, now) = spec_dispatch(keys, busy, eligible, running, limit, n - 1);
        let i = n - 1;
        if now >= limit || key_seen_before(keys, i) || busy[i] || !eligible[i] {
            (started, now)
        } else {
            (started.push(i), now + 1)
        }
    }
}

/// Starts executions from the head of a process mailbox: the positions started, in order,
/// and the new running count.
pub fn dispatch_mailbox(
    keys: &[String],
    busy: &[bool],
    eligible: &[bool],
    running: u64,
    limit: u64,
) -> (r: (Vec<usize>, u64))
    requires
        busy@.len() == keys@.len(),
        eligible@.len() == keys@.len(),
    ensures
        ({
            let (started, now) = spec_dispatch(
                string_views(keys@),
                busy@,
                eligible@,
                running as nat,
                limit as nat,
                keys@.len() as int,
            );
            &&& r.0@.len() == started.len()
            &&& forall|k: int| 0 <= k < started.len() ==> r.0@[k] as int == #[trigger] started[k]
            &&& r.1 as nat == now
        }),
{
    let ghost views = string_views(keys@);
    let mut started: Vec<usize> = Vec::new();
    let mut now = running;
    let mut i: usize = 0;
    while i < keys.len()
        invariant
            i <= keys@.len(),
            busy@.len() == keys@.len(),
            eligible@.len() == keys@.len(),
            views == string_views(keys@),
            ({
                let (s, r) = spec_dispatch(views, busy@, eligible@, running as nat, limit as nat, i as int);
                &&& started@.len() == s.len()
                &&& forall|k: int| 0 <= k < s.len() ==> started@[k] as int == #[trigger] s[k]
                &&& now as nat == r
            }),
            now >= running,
            now <= running + i,
            started@.len() <= i,
        decreases keys@.len() - i,
    {
        let mut seen = false;
        let mut j: usize = 0;
        while j < i
            invariant
                i < keys@.len(),
                j <= i,
                views == string_views(keys@),
                seen == (exists|m: int| 0 <= m < j && views[m] == views[i as int]),
            decreases i - j,
        {
            if str_eq(keys[j].as_str(), keys[i].as_str()) {
                assert(views[j as int] == views[i as int]);
                seen = true;
            }
            proof {
                if !seen {
                    assert forall|m: int| 0 <= m < j + 1 implies views[m] != views[i as int] by {
                        if m == j {
                        }
                    }
                }
            }
            j = j + 1;
        }
        assert(seen == key_seen_before(views, i as int));
        if now < limit && !seen && !busy[i] && eligible[i] {
            started.push(i);
            now = now + 1;
        }
        i = i + 1;
    }
    (started, now)
}

/// One key runs one state transition at a time, in mailbox order: the executions that a
/// dispatch starts belong to distinct keys, none of which had one in flight, each the
/// first item of its key in the mailbox, and they never take the running count past the
/// limit.
pub proof fn law_dispatch_one_transition_per_key(
    keys: Seq<Seq<char>>,
    busy: Seq<bool>,
    eligible: Seq<bool>,
    running: nat,
    limit: nat,
    n: int,
)
    requires
        0 <= n <= keys.len(),
        busy.len() == keys.len(),
        eligible.len() == keys.len(),
    ensures
        ({
            let (started, now) = spec_dispatch(keys, busy, eligible, running, limit, n);
            &&& now == running + started.len()
            &&& (started.len() > 0 ==> now <= limit)
            &&& forall|a: int, b: int| 0 <= a < b < started.len() ==> started[a] < started[b]
                && keys[started[a]] != keys[started[b]]
            &&& forall|a: int| 0 <= a < started.len() ==> 0 <= #[trigger] started[a] < n
                && !busy[started[a]] && eligible[started[a]] && !key_seen_before(keys, started[a])
        }),
    decreases n,
{
    if n > 0 {
        law_dispatch_one_transition_per_key(keys, busy, eligible, running, limit, n - 1);
        let (s, r) = spec_dispatch(keys, busy, eligible, running, limit, n - 1);
        let i = n - 1;
        if !(r >= limit || key_seen_before(keys, i) || busy[i] || !eligible[i]) {
            let t = s.push(i);
            assert forall|a: int, b: int| 0 <= a < b < t.len() implies t[a] < t[b]
                && keys[t[a]] != keys[t[b]] by {
                if b == t.len() - 1 {
                    assert(t[b] == i);
                    assert(t[a] == s[a]);
                    if keys[t[a]] == keys[i] {
                        assert(key_seen_before(keys, i));
                    }
                } else {
                    assert(t[a] == s[a] && t[b] == s[b]);
                }
            }
            assert forall|a: int| 0 <= a < t.len() implies 0 <= #[trigger] t[a] < n
                && !busy[t[a]] && eligible[t[a]] && !key_seen_before(keys, t[a]) by {
                if a < s.len() {
                    assert(t[a] == s[a]);
                }
            }
        }
    }
}

/// Why a completion of a leased process batch was refused.
#[derive(Debug, Clone, Copy, PartialEq, Eq, Structural)]
pub enum CompletionError {
    /// A completion answers between 1 and 16384 executions.
    BatchSize,
    /// The completion speaks another protocol version.
    UnsupportedProtocol,
    /// The partition is not one of the data partitions.
    PartitionOutOfRange,
    /// The lease is gone, or it was issued to another partition, generation or activation.
    LeaseLost,
    /// The completion does not answer every leased execution.
    IncompleteBatch,
}

/// The checks a completion passes before it is routed to its partition.
pub fn check_completion_request(items: usize, protocol_version: u32, partition_id: u32, data_shards: usize) -> (r: Result<(), CompletionError>)
    ensures
        r == if items == 0 || items > 16384 {
            Err::<(), CompletionError>(CompletionError::BatchSize)
        } else if protocol_version != crate::protocol::PROTOCOL_VERSION {
            Err(CompletionError::UnsupportedProtocol)
        } else if partition_id == 0 || partition_id > data_shards {
            Err(CompletionError::PartitionOutOfRange)
        } else {
            Ok(())
        },
{
    if items == 0 || items > 16384 {
        Err(CompletionError::BatchSize)
    } else if !crate::protocol::protocol_version_supported(protocol_version) {
        Err(CompletionError::UnsupportedProtocol)
    } else if partition_id == 0 || partition_id as usize > data_shards {
        Err(CompletionError::PartitionOutOfRange)
    } else {
        Ok(())
    }
}

/// What a batch lease records of the activation it was issued for.
#[derive(Debug, Clone, Copy, PartialEq, Eq, Structural)]
pub struct LeaseStamp {
    pub shard: u32,
    pub owner_epoch: u64,
    pub activation_sequence: u64,
    pub executions: usize,
}

/// The checks a completion passes against its batch lease before the partition commits
/// it: the lease exists for this partition, the completion answers each leased execution,
/// and it names the lease's partition, generation and activation.
pub fn check_completion_lease(
    lease: Option<LeaseStamp>,
    shard: usize,
    partition_id: u32,
    owner_epoch: u64,
    activation_sequence: u64,
    items: usize,
) -> (r: Result<(), CompletionError>)
    ensures
        r == match lease {
            None => Err::<(), CompletionError>(CompletionError::LeaseLost),
            Some(l) => if l.shard != shard {
                Err(CompletionError::LeaseLost)
            } else if items != l.executions {
                Err(CompletionError::IncompleteBatch)
            } else if partition_id != l.shard || owner_epoch != l.owner_epoch
                || activation_sequence != l.activation_sequence {
                Err(CompletionError::LeaseLost)
            } else {
                Ok(())
            },
        },
{
    match lease {
        None => Err(CompletionError::LeaseLost),
        Some(l) => if l.shard as usize != shard {
            Err(CompletionError::LeaseLost)
        } else if items != l.executions {
            Err(CompletionError::IncompleteBatch)
        } else if partition_id != l.shard || owner_epoch != l.owner_epoch
            || activation_sequence != l.activation_sequence {
            Err(CompletionError::LeaseLost)
        } else {
            Ok(())
        },
    }
}

/// The check inside the partition's commit: the lease still exists for this process and
/// partition, and the partition's current owner epoch, the lease's and the completion's
/// are one generation, with the lease's activation and execution count. A completion from
/// an earlier generation therefore cannot commit.
pub fn check_committed_lease(
    lease: Option<LeaseStamp>,
    same_process: bool,
    shard: usize,
    current_owner_epoch: u64,
    owner_epoch: u64,
    activation_sequence: u64,
    items: usize,
) -> (r: Result<(), CompletionError>)
    ensures
        r is Ok <==> (lease matches Some(l) && l.shard == shard && same_process
            && l.owner_epoch == current_owner_epoch && l.owner_epoch == owner_epoch
            && l.activation_sequence == activation_sequence && l.executions == items),
        r is Err ==> r == Err::<(), CompletionError>(CompletionError::LeaseLost),
{
    match lease {
        None => Err(CompletionError::LeaseLost),
        Some(l) => if l.shard as usize != shard || !same_process || l.owner_epoch != current_owner_epoch
            || l.owner_epoch != owner_epoch || l.activation_sequence != activation_sequence
            || l.executions != items {
            Err(CompletionError::LeaseLost)
        } else {
            Ok(())
        },
    }
}

/// Why the executions of a batch lease are taken back from their worker.
#[derive(Debug, Clone, Copy, PartialEq, Eq, Structural)]
pub enum LeaseRecovery {
    /// The lease expired before the batch completed.
    Expired,
    /// The partition's owner generation changed since the lease was issued.
    Orphaned,
}

/// Whether a batch lease is recovered: when it expired, or, where orphans are recovered,
/// when the partition's current owner epoch is not the lease's. Its executions then fail
/// with the reason, which names a fenced owner first.
pub fn lease_recovery(expired: bool, recover_orphans: bool, owner_epoch: Option<u64>, lease_epoch: u64) -> (r: Option<LeaseRecovery>)
    ensures
        ({
            let orphaned = owner_epoch != Some(lease_epoch);
            &&& r is Some <==> (expired || (recover_orphans && orphaned))
            &&& r matches Some(reason) ==> reason == if orphaned {
                LeaseRecovery::Orphaned
            } else {
                LeaseRecovery::Expired
            }
        }),
{
    let orphaned = match owner_epoch {
        Some(e) => e != lease_epoch,
        None => true,
    };
    if !expired && !(recover_orphans && orphaned) {
        None
    } else if orphaned {
        Some(LeaseRecovery::Orphaned)
    } else {
        Some(LeaseRecovery::Expired)
    }
}

/// The failure recorded on each execution of a recovered lease.
pub fn lease_recovery_failure(reason: LeaseRecovery) -> (failure: &'static str)
    ensures
        failure@ == match reason {
            LeaseRecovery::Orphaned => "activation lost when its partition owner was fenced"@,
            LeaseRecovery::Expired => "activation lease expired before completion"@,
        },
{
    match reason {
        LeaseRecovery::Orphaned => "activation lost when its partition owner was fenced",
        LeaseRecovery::Expired => "activation lease expired before completion",
    }
}

/// The durable outcome of one admitted process event.
#[derive(Debug, Clone, Copy, PartialEq, Eq, Structural)]
pub enum OutcomeStatus {
    Pending,
    Committed,
    Failed,
}

/// Why a process outcome could not be recorded.
#[derive(Debug, Clone, Copy, PartialEq, Eq, Structural)]
pub enum OutcomeError {
    /// The event id already names an event with other contents (another sequence).
    EventIdReused,
    /// The event already reached this other terminal status.
    AlreadyTerminal(OutcomeStatus),
}

/// Admitting an event under an event id: a new id records a pending outcome (`Ok(true)`),
/// a known id is the same event again only at the same sequence (`Ok(false)`).
pub fn admit_outcome(existing_sequence: Option<u64>, sequence: u64) -> (r: Result<bool, OutcomeError>)
    ensures
        r == match existing_sequence {
            None => Ok::<bool, OutcomeError>(true),
            Some(s) => if s == sequence {
                Ok(false)
            } else {
                Err(OutcomeError::EventIdReused)
            },
        },
{
    match existing_sequence {
        None => Ok(true),
        Some(s) => if s == sequence {
            Ok(false)
        } else {
            Err(OutcomeError::EventIdReused)
        },
    }
}

pub open spec fn spec_outcome_transition(current: OutcomeStatus, next: OutcomeStatus) -> Result<OutcomeStatus, OutcomeError> {
    if current == OutcomeStatus::Pending || current == next {
        Ok(next)
    } else {
        Err(OutcomeError::AlreadyTerminal(current))
    }
}

/// Records an outcome: a pending event may take any status, and an event that already
/// reached a terminal status only that same status again.
pub fn outcome_transition(current: OutcomeStatus, next: OutcomeStatus) -> (r: Result<OutcomeStatus, OutcomeError>)
    ensures
        r == spec_outcome_transition(current, next),
{
    if current == OutcomeStatus::Pending || current == next {
        Ok(next)
    } else {
        Err(OutcomeError::AlreadyTerminal(current))
    }
}

/// Retries are idempotent: once an event's outcome is terminal, any update that is
/// recorded leaves it with that same status.
pub proof fn law_terminal_outcomes_are_final(current: OutcomeStatus, next: OutcomeStatus)
    requires
        current != OutcomeStatus::Pending,
    ensures
        spec_outcome_transition(current, next) matches Ok(s) ==> s == current,
{
}

/// The most executions one activation batch of a process takes: its batch size, kept
/// within 1 to 16384.
pub open spec fn spec_batch_max(batch_max_size: u32) -> nat {
    if batch_max_size < 1 {
        1
    } else if batch_max_size > 16384 {
        16384
    } else {
        batch_max_size as nat
    }
}

/// Whether a process's ready executions are handed out now: a batch runs when it is full
/// or when its oldest execution has waited the batch delay (`oldest_waited`, decided on the
/// clock by the caller); with no candidates nothing runs.
pub fn batch_ready(candidates: usize, batch_max_size: u32, oldest_waited: bool) -> (ready: bool)
    ensures
        ready == (candidates > 0 && (candidates >= spec_batch_max(batch_max_size) || oldest_waited)),
{
    let max: usize = if batch_max_size < 1 {
        1
    } else if batch_max_size > 16384 {
        16384
    } else {
        batch_max_size as usize
    };
    candidates > 0 && (candidates >= max || oldest_waited)
}

/// What direct ingress does with one record of a request.
#[derive(Debug, Clone, Copy, PartialEq, Eq, Structural)]
pub enum RecordAdmission {
    /// The event was admitted before, in an earlier request or earlier in this one.
    Duplicate,
    /// The event is admitted and its execution starts at once.
    Start,
    /// The event is admitted and waits in the shard mailbox.
    Queue,
}

/// Why a direct ingress request was refused as a whole.
#[derive(Debug, Clone, Copy, PartialEq, Eq, Structural)]
pub enum ShardAdmissionError {
    /// The new events would take the shard past its share of the mailbox capacity.
    MailboxFull,
    /// An event id was already used with other contents.
    EventIdReused,
}

/// The outcome of an admitted request: one disposition per record, in order, and the
/// counts of admitted and duplicate events.
pub struct ShardAdmission {
    pub dispositions: Vec<RecordAdmission>,
    pub accepted: u64,
    pub duplicates: u64,
}

/// The record at `i` is the first record of the request under its dedup key that was not
/// admitted before the request.
pub open spec fn first_new(stored_none: Seq<bool>, dedup: Seq<Seq<char>>, i: int) -> bool {
    stored_none[i] && forall|j: int| 0 <= j < i ==> !(stored_none[j] && dedup[j] == dedup[i])
}

/// How many distinct events among the first `n` records are new.
pub open spec fn new_count(stored_none: Seq<bool>, dedup: Seq<Seq<char>>, n: int) -> nat
    decreases n,
{
    if n <= 0 {
        0
    } else {
        new_count(stored_none, dedup, n - 1) + if first_new(stored_none, dedup, n - 1) {
            1nat
        } else {
            0nat
        }
    }
}

/// The last record before `m` that this request admitted under `key`.
pub open spec fn last_admitted(d: Seq<RecordAdmission>, dedup: Seq<Seq<char>>, key: Seq<char>, m: int) -> Option<int>
    decreases m,
{
    if m <= 0 {
        None
    } else if d[m - 1] != RecordAdmission::Duplicate && dedup[m - 1] == key {
        Some(m - 1)
    } else {
        last_admitted(d, dedup, key, m - 1)
    }
}

/// The inputs of one direct ingress request on one shard: per record its dedup key, its
/// process key, its contents, the event stored under its dedup key before the request,
/// and whether its process key already has an execution in flight.
pub struct IngressRecords {
    pub dedup_keys: Seq<Seq<char>>,
    pub keys: Seq<Seq<char>>,
    pub contents: Seq<IndexedRecordView>,
    pub stored: Seq<Option<IndexedRecordView>>,
    pub key_active: Seq<bool>,
}

pub open spec fn stored_none(r: IngressRecords) -> Seq<bool> {
    r.stored.map_values(|s: Option<IndexedRecordView>| s is None)
}

/// The dispositions of the first `n` records and the running count after them, or the
/// reuse of an event id with other contents. A record is a duplicate when an event is
/// stored under its dedup key, or the request admitted one under it earlier; its contents
/// must be that event's. Otherwise it starts while fewer than `concurrency` executions run
/// and its key has none in flight and none started by this request; else it queues.
pub open spec fn admit_fold(r: IngressRecords, running: nat, concurrency: nat, n: int) -> Result<
    (Seq<RecordAdmission>, nat),
    ShardAdmissionError,
>
    decreases n,
{
    if n <= 0 {
        Ok((Seq::empty(), running))
    } else {
        match admit_fold(r, running, concurrency, n - 1) {
            Err(e) => Err(e),
            Ok((d, run)) => {
                let i = n - 1;
                let earlier = last_admitted(d, r.dedup_keys, r.dedup_keys[i], i);
                if r.stored[i] is Some || earlier is Some {
                    let other = match r.stored[i] {
                        Some(s) => s,
                        None => r.contents[earlier->0],
                    };
                    if same_contents(other, r.contents[i]) {
                        Ok((d.push(RecordAdmission::Duplicate), run))
                    } else {
                        Err(ShardAdmissionError::EventIdReused)
                    }
                } else if run < concurrency && !r.key_active[i] && !(exists|j: int|
                    0 <= j < i && d[j] == RecordAdmission::Start && r.keys[j] == r.keys[i]) {
                    Ok((d.push(RecordAdmission::Start), run + 1))
                } else {
                    Ok((d.push(RecordAdmission::Queue), run))
                }
            },
        }
    }
}

pub open spec fn count_admitted(d: Seq<RecordAdmission>, n: int) -> nat
    decreases n,
{
    if n <= 0 {
        0
    } else {
        count_admitted(d, n - 1) + if d[n - 1] != RecordAdmission::Duplicate {
            1nat
        } else {
            0nat
        }
    }
}

proof fn lemma_last_admitted_none(d: Seq<RecordAdmission>, dedup: Seq<Seq<char>>, key: Seq<char>, m: int)
    requires
        0 <= m <= d.len(),
    ensures
        last_admitted(d, dedup, key, m) is None <==> forall|j: int|
            0 <= j < m ==> !(d[j] != RecordAdmission::Duplicate && dedup[j] == key),
        last_admitted(d, dedup, key, m) matches Some(j) ==> 0 <= j < m && d[j]
            != RecordAdmission::Duplicate && dedup[j] == key,
    decreases m,
{
    if m > 0 {
        lemma_last_admitted_none(d, dedup, key, m - 1);
    }
}

proof fn lemma_first_new_witness(sn: Seq<bool>, dedup: Seq<Seq<char>>, i: int, j: int)
    requires
        0 <= j < i <= sn.len(),
        sn.len() == dedup.len(),
        sn[j],
    ensures
        exists|k: int| 0 <= k < i && first_new(sn, dedup, k) && dedup[k] == dedup[j],
    decreases j,
{
    if first_new(sn, dedup, j) {
        assert(0 <= j < i && first_new(sn, dedup, j) && dedup[j] == dedup[j]);
    } else {
        let j2 = choose|j2: int| 0 <= j2 < j && sn[j2] && dedup[j2] == dedup[j];
        lemma_first_new_witness(sn, dedup, i, j2);
    }
}

proof fn lemma_count_push(d: Seq<RecordAdmission>, x: RecordAdmission, m: int)
    requires
        0 <= m <= d.len(),
    ensures
        count_admitted(d.push(x), m) == count_admitted(d, m),
    decreases m,
{
    if m > 0 {
        lemma_count_push(d, x, m - 1);
    }
}

/// Direct ingress admits exactly the new distinct events: a record is admitted, not a
/// duplicate, exactly when it is the first record of the request under a dedup key that
/// held no event before, so the admitted count is the number of new distinct events and
/// the rest are duplicates.
pub proof fn law_admission_counts_new_events(r: IngressRecords, running: nat, concurrency: nat, n: int)
    requires
        0 <= n <= r.dedup_keys.len(),
        r.keys.len() == r.dedup_keys.len(),
        r.contents.len() == r.dedup_keys.len(),
        r.stored.len() == r.dedup_keys.len(),
        r.key_active.len() == r.dedup_keys.len(),
    ensures
        admit_fold(r, running, concurrency, n) matches Ok((d, _)) ==> {
            &&& d.len() == n
            &&& forall|i: int| 0 <= i < n ==> (d[i] != RecordAdmission::Duplicate) == first_new(
                stored_none(r),
                r.dedup_keys,
                i,
            )
            &&& count_admitted(d, n) == new_count(stored_none(r), r.dedup_keys, n)
        },
    decreases n,
{
    if n > 0 {
        law_admission_counts_new_events(r, running, concurrency, n - 1);
        let sn = stored_none(r);
        match admit_fold(r, running, concurrency, n - 1) {
            Err(_) => {},
            Ok((d0, run)) => {
                let i = n - 1;
                let key = r.dedup_keys[i];
                lemma_last_admitted_none(d0, r.dedup_keys, key, i);
                match admit_fold(r, running, concurrency, n) {
                    Err(_) => {},
                    Ok((d, _)) => {
                        let x = d[i];
                        assert(d == d0.push(x));
                        lemma_count_push(d0, x, i);
                        assert(sn[i] == (r.stored[i] is None));
                        assert forall|j: int| 0 <= j < i implies (d[j] != RecordAdmission::Duplicate)
                            == first_new(sn, r.dedup_keys, j) by {
                            assert(d[j] == d0[j]);
                        }
                        if (x != RecordAdmission::Duplicate) != first_new(sn, r.dedup_keys, i) {
                            if x != RecordAdmission::Duplicate {
                                let j = choose|j: int| 0 <= j < i && sn[j] && r.dedup_keys[j] == key;
                                lemma_first_new_witness(sn, r.dedup_keys, i, j);
                                let k = choose|k: int| 0 <= k < i && first_new(sn, r.dedup_keys, k)
                                    && r.dedup_keys[k] == r.dedup_keys[j];
                                assert(d0[k] != RecordAdmission::Duplicate);
                            } else {
                                let j = last_admitted(d0, r.dedup_keys, key, i)->0;
                                assert(d0[j] != RecordAdmission::Duplicate);
                                assert(first_new(sn, r.dedup_keys, j));
                            }
                        }
                    },
                }
            },
        }
    }
}

proof fn lemma_fold_error_stays(r: IngressRecords, running: nat, concurrency: nat, a: int, m: int)
    requires
        0 <= a <= m,
        admit_fold(r, running, concurrency, a) is Err,
    ensures
        admit_fold(r, running, concurrency, m) == admit_fold(r, running, concurrency, a),
    decreases m - a,
{
    if a < m {
        lemma_fold_error_stays(r, running, concurrency, a, m - 1);
    }
}

pub open spec fn record_views(s: Seq<IndexedRecord>) -> Seq<IndexedRecordView> {
    s.map_values(|c: IndexedRecord| c@)
}

pub open spec fn stored_views(s: Seq<Option<IndexedRecord>>) -> Seq<Option<IndexedRecordView>> {
    s.map_values(|o: Option<IndexedRecord>| match o {
        Some(x) => Some(x@),
        None => None,
    })
}

pub open spec fn ingress_records(
    dedup_keys: Seq<String>,
    keys: Seq<String>,
    contents: Seq<IndexedRecord>,
    stored: Seq<Option<IndexedRecord>>,
    key_active: Seq<bool>,
) -> IngressRecords {
    IngressRecords {
        dedup_keys: string_views(dedup_keys),
        keys: string_views(keys),
        contents: record_views(contents),
        stored: stored_views(stored),
        key_active,
    }
}

fn count_new(dedup_keys: &[String], stored: &[Option<IndexedRecord>]) -> (n: u64)
    requires
        dedup_keys.len() == stored.len(),
    ensures
        n == new_count(stored_none(ingress_records(dedup_keys@, dedup_keys@, Seq::empty(), stored@, Seq::empty())), string_views(dedup_keys@), dedup_keys.len() as int),
        n <= dedup_keys.len(),
{
    let ghost sn = stored_none(ingress_records(dedup_keys@, dedup_keys@, Seq::empty(), stored@, Seq::empty()));
    let ghost dk = string_views(dedup_keys@);
    let mut n: u64 = 0;
    let mut i: usize = 0;
    while i < dedup_keys.len()
        invariant
            i <= dedup_keys.len(),
            dedup_keys.len() == stored.len(),
            sn == stored_none(ingress_records(dedup_keys@, dedup_keys@, Seq::empty(), stored@, Seq::empty())),
            dk == string_views(dedup_keys@),
            n == new_count(sn, dk, i as int),
            n <= i,
        decreases dedup_keys.len() - i,
    {
        assert(sn[i as int] == stored@[i as int] is None);
        if stored[i].is_none() {
            let mut seen = false;
            let mut j: usize = 0;
            while j < i
                invariant
                    j <= i,
                    i < dedup_keys.len(),
                    dedup_keys.len() == stored.len(),
                    sn == stored_none(ingress_records(dedup_keys@, dedup_keys@, Seq::empty(), stored@, Seq::empty())),
                    dk == string_views(dedup_keys@),
                    seen == exists|m: int| 0 <= m < j && sn[m] && dk[m] == dk[i as int],
                decreases i - j,
            {
                assert(sn[j as int] == stored@[j as int] is None);
                if stored[j].is_none() && str_eq(dedup_keys[j].as_str(), dedup_keys[i].as_str()) {
                    seen = true;
                }
                j = j + 1;
            }
            if !seen {
                n = n + 1;
            }
        }
        i = i + 1;
    }
    n
}

/// Admits the records of one direct ingress request on a shard. The request is refused
/// whole, before any record is admitted, when its new distinct events would take the shard
/// past its share of the mailbox capacity; otherwise every record gets the disposition
/// that `admit_fold` gives it, and the counts follow.
pub fn admit_shard_records(
    state: &ProcessShardState,
    dedup_keys: &[String],
    keys: &[String],
    contents: &[IndexedRecord],
    stored: &[Option<IndexedRecord>],
    key_active: &[bool],
    concurrency: u64,
    mailbox_capacity: u64,
    data_shards: usize,
) -> (r: Result<ShardAdmission, ShardAdmissionError>)
    requires
        data_shards >= 1,
        keys.len() == dedup_keys.len(),
        contents.len() == dedup_keys.len(),
        stored.len() == dedup_keys.len(),
        key_active.len() == dedup_keys.len(),
    ensures
        ({
            let input = ingress_records(dedup_keys@, keys@, contents@, stored@, key_active@);
            let fresh = new_count(stored_none(input), input.dedup_keys, dedup_keys.len() as int);
            let used = state.pending + state.running + state.retry_pending + state.retry_running;
            if used + fresh > spec_shard_capacity(mailbox_capacity, data_shards as nat) {
                r == Err::<ShardAdmission, ShardAdmissionError>(ShardAdmissionError::MailboxFull)
            } else {
                match admit_fold(input, state.running as nat, concurrency as nat, dedup_keys.len() as int) {
                    Err(e) => r matches Err(x) && x == e,
                    Ok((d, _)) => r matches Ok(a) && a.dispositions@ == d && a.accepted == fresh
                        && a.accepted + a.duplicates == dedup_keys.len(),
                }
            }
        }),
{
    let ghost input = ingress_records(dedup_keys@, keys@, contents@, stored@, key_active@);
    let fresh = count_new(dedup_keys, stored);
    proof {
        assert(stored_none(ingress_records(dedup_keys@, dedup_keys@, Seq::empty(), stored@, Seq::empty()))
            =~= stored_none(input));
    }
    let shards = data_shards as u128;
    let capacity = (mailbox_capacity as u128 + shards - 1) / shards;
    let used = state.pending as u128 + state.running as u128 + state.retry_pending as u128
        + state.retry_running as u128 + fresh as u128;
    if used > capacity {
        return Err(ShardAdmissionError::MailboxFull);
    }
    let len = dedup_keys.len();
    let mut dispositions: Vec<RecordAdmission> = Vec::new();
    let mut run: u64 = state.running;
    let mut accepted: u64 = 0;
    let mut i: usize = 0;
    while i < len
        invariant
            i <= len,
            len == dedup_keys.len(),
            keys.len() == len,
            contents.len() == len,
            stored.len() == len,
            key_active.len() == len,
            input == ingress_records(dedup_keys@, keys@, contents@, stored@, key_active@),
            admit_fold(input, state.running as nat, concurrency as nat, i as int) == Ok::<
                (Seq<RecordAdmission>, nat),
                ShardAdmissionError,
            >((dispositions@, run as nat)),
            dispositions@.len() == i,
            accepted == count_admitted(dispositions@, i as int),
            accepted <= i,
            !(state.pending + state.running + state.retry_pending + state.retry_running + new_count(
                stored_none(input),
                input.dedup_keys,
                len as int,
            ) > spec_shard_capacity(mailbox_capacity, data_shards as nat)),
        decreases len - i,
    {
        let ghost d = dispositions@;
        let ghost key = input.dedup_keys[i as int];
        // The record this one repeats, among those this request admitted.
        let mut earlier: Option<usize> = None;
        let mut k: usize = i;
        while k > 0 && earlier.is_none()
            invariant
                k <= i,
                i < len,
                len == dedup_keys.len(),
                dispositions@ == d,
                d.len() == i,
                input == ingress_records(dedup_keys@, keys@, contents@, stored@, key_active@),
                key == input.dedup_keys[i as int],
                earlier is None ==> last_admitted(d, input.dedup_keys, key, i as int) == last_admitted(
                    d,
                    input.dedup_keys,
                    key,
                    k as int,
                ),
                earlier matches Some(f) ==> last_admitted(d, input.dedup_keys, key, i as int) == Some(
                    f as int,
                ) && f < i,
            decreases k + (if earlier is None { 1int } else { 0int }),
        {
            if dispositions[k - 1] != RecordAdmission::Duplicate && str_eq(
                dedup_keys[k - 1].as_str(),
                dedup_keys[i].as_str(),
            ) {
                earlier = Some(k - 1);
            } else {
                k = k - 1;
            }
        }
        let ghost last = last_admitted(d, input.dedup_keys, key, i as int);
        assert(earlier is None ==> last is None);
        let other: Option<&IndexedRecord> = match &stored[i] {
            Some(x) => Some(x),
            None => match earlier {
                Some(f) => Some(&contents[f]),
                None => None,
            },
        };
        match other {
            Some(o) => {
                assert(o@ == match input.stored[i as int] {
                    Some(s) => s,
                    None => input.contents[last->0],
                });
                if !records_match(o, &contents[i]) {
                    proof {
                        assert(input.contents[i as int] == contents@[i as int]@);
                        assert(admit_fold(input, state.running as nat, concurrency as nat, i + 1)
                            == Err::<(Seq<RecordAdmission>, nat), ShardAdmissionError>(
                            ShardAdmissionError::EventIdReused,
                        ));
                        lemma_fold_error_stays(input, state.running as nat, concurrency as nat, i + 1, len as int);
                    }
                    return Err(ShardAdmissionError::EventIdReused);
                }
                dispositions.push(RecordAdmission::Duplicate);
            },
            None => {
                let mut claimed = false;
                let mut j: usize = 0;
                while j < i
                    invariant
                        j <= i,
                        i < len,
                        len == keys.len(),
                        dispositions@ == d,
                        d.len() == i,
                        input == ingress_records(dedup_keys@, keys@, contents@, stored@, key_active@),
                        claimed == exists|m: int| 0 <= m < j && d[m] == RecordAdmission::Start
                            && input.keys[m] == input.keys[i as int],
                    decreases i - j,
                {
                    if dispositions[j] == RecordAdmission::Start && str_eq(
                        keys[j].as_str(),
                        keys[i].as_str(),
                    ) {
                        claimed = true;
                    }
                    j = j + 1;
                }
                if run < concurrency && !key_active[i] && !claimed {
                    dispositions.push(RecordAdmission::Start);
                    run = run + 1;
                } else {
                    dispositions.push(RecordAdmission::Queue);
                }
                accepted = accepted + 1;
            },
        }
        proof {
            lemma_count_push(d, dispositions@[i as int], i as int);
            assert(dispositions@ == d.push(dispositions@[i as int]));
        }
        i = i + 1;
    }
    proof {
        law_admission_counts_new_events(input, state.running as nat, concurrency as nat, len as int);
    }
    Ok(ShardAdmission { dispositions, accepted, duplicates: (len as u64) - accepted })
}

} // verus!
