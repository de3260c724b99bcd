//! The decisions of appending one record to a stream: its source position, its event
//! identity, and what lateness does to it.
use crate::streaming::{ChangeKind, LatePolicy};
use crate::text::{bytes_eq, decimal_text, is_blank, push_radix, spec_is_blank, str_eq};
use vstd::prelude::*;

verus! {

/// Why an append was refused before it reached the stream.
#[derive(Debug, Clone, Copy, PartialEq, Eq, Structural)]
pub enum AppendError {
    /// Only some of source id, partition and offset were given, or the source id is blank.
    IncompleteSource,
    /// A source checkpoint without source metadata, empty, or longer than 4096 bytes.
    InvalidCheckpoint,
    /// The event id is blank.
    EmptyEventId,
    /// The source offset is not the next one the source cursor expects.
    UnexpectedOffset,
    /// The source offset is the largest `u64`, so no offset can follow it.
    OffsetOverflow,
    /// The event id already names a record with other contents.
    EventIdReused,
}

/// Where a record comes from in an external source.
pub struct SourcePosition {
    pub source_id: String,
    pub partition: u32,
    pub offset: u64,
}

/// The source position of an append: all three parts or none, with a non-blank source id,
/// and a checkpoint only with a position and of 1 to 4096 bytes.
pub open spec fn spec_source_position(
    source_id: Option<Seq<char>>,
    partition: Option<u32>,
    offset: Option<u64>,
    checkpoint_len: Option<nat>,
) -> Result<Option<(Seq<char>, u32, u64)>, AppendError> {
    let source = match (source_id, partition, offset) {
        (None, None, None) => Ok(None),
        (Some(id), Some(p), Some(o)) => if spec_is_blank(id) {
            Err(AppendError::IncompleteSource)
        } else {
            Ok(Some((id, p, o)))
        },
        _ => Err(AppendError::IncompleteSource),
    };
    match source {
        Err(e) => Err(e),
        Ok(position) => if checkpoint_len matches Some(n) && (position is None || n == 0 || n
            > 4096) {
            Err(AppendError::InvalidCheckpoint)
        } else {
            Ok(position)
        },
    }
}

pub fn source_position(
    source_id: Option<&str>,
    partition: Option<u32>,
    offset: Option<u64>,
    checkpoint_len: Option<usize>,
) -> (r: Result<Option<SourcePosition>, AppendError>)
    ensures
        match spec_source_position(
            match source_id {
                Some(s) => Some(s@),
                None => None,
            },
            partition,
            offset,
            match checkpoint_len {
                Some(n) => Some(n as nat),
                None => None,
            },
        ) {
            Ok(None) => r matches Ok(None),
            Ok(Some((id, p, o))) => r matches Ok(Some(pos)) && pos.source_id@ == id
                && pos.partition == p && pos.offset == o,
            Err(e) => r == Err::<Option<SourcePosition>, AppendError>(e),
        },
{
    let position = match (source_id, partition, offset) {
        (None, None, None) => None,
        (Some(id), Some(p), Some(o)) => {
            if is_blank(id) {
                return Err(AppendError::IncompleteSource);
            }
            Some(SourcePosition { source_id: id.to_owned(), partition: p, offset: o })
        },
        _ => {
            return Err(AppendError::IncompleteSource);
        },
    };
    match checkpoint_len {
        Some(n) => {
            if position.is_none() || n == 0 || n > 4096 {
                return Err(AppendError::InvalidCheckpoint);
            }
        },
        None => {},
    }
    Ok(position)
}

/// The identity a record is deduplicated by: its own event id, or else its source
/// position as `source:{id}:{partition}:{offset}`. A blank identity is refused.
pub open spec fn spec_effective_event_id(
    event_id: Option<Seq<char>>,
    source: Option<(Seq<char>, u32, u64)>,
) -> Result<Option<Seq<char>>, AppendError> {
    let id = match event_id {
        Some(e) => Some(e),
        None => match source {
            Some((s, p, o)) => Some(
                "source:"@ + s + ":"@ + decimal_text(p as nat) + ":"@ + decimal_text(o as nat),
            ),
            None => None,
        },
    };
    if id matches Some(i) && spec_is_blank(i) {
        Err(AppendError::EmptyEventId)
    } else {
        Ok(id)
    }
}

pub fn effective_event_id(event_id: Option<&str>, source: &Option<SourcePosition>) -> (r: Result<
    Option<String>,
    AppendError,
>)
    ensures
        match spec_effective_event_id(
            match event_id {
                Some(e) => Some(e@),
                None => None,
            },
            match source {
                Some(s) => Some((s.source_id@, s.partition, s.offset)),
                None => None,
            },
        ) {
            Ok(None) => r matches Ok(None),
            Ok(Some(i)) => r matches Ok(Some(x)) && x@ == i,
            Err(e) => r == Err::<Option<String>, AppendError>(e),
        },
{
    let id = match event_id {
        Some(e) => Some(e.to_owned()),
        None => match source {
            Some(s) => {
                let mut id = String::new();
                id.append("source:");
                id.append(s.source_id.as_str());
                id.append(":");
                push_radix(&mut id, s.partition as u64, 0, 10);
                id.append(":");
                push_radix(&mut id, s.offset, 0, 10);
                Some(id)
            },
            None => None,
        },
    };
    match &id {
        Some(i) => {
            if is_blank(i.as_str()) {
                return Err(AppendError::EmptyEventId);
            }
        },
        None => {},
    }
    Ok(id)
}

/// A source's records arrive in offset order: each append must carry the offset its cursor
/// expects, and moves the cursor one past it.
pub open spec fn spec_advance_source_cursor(expected: u64, offset: u64) -> Result<u64, AppendError> {
    if offset != expected {
        Err(AppendError::UnexpectedOffset)
    } else if offset == u64::MAX {
        Err(AppendError::OffsetOverflow)
    } else {
        Ok((offset + 1) as u64)
    }
}

pub fn advance_source_cursor(expected: u64, offset: u64) -> (r: Result<u64, AppendError>)
    ensures
        r == spec_advance_source_cursor(expected, offset),
{
    if offset != expected {
        return Err(AppendError::UnexpectedOffset);
    }
    match offset.checked_add(1) {
        Some(next) => Ok(next),
        None => Err(AppendError::OffsetOverflow),
    }
}

/// Appending a source's offsets one after another from its cursor is accepted at each step
/// and leaves the cursor one past the last.
pub proof fn law_source_offsets_advance_in_order(expected: u64, count: nat)
    requires
        expected + count <= u64::MAX,
    ensures
        forall|k: nat|
            k < count ==> #[trigger] spec_advance_source_cursor((expected + k) as u64, (expected
                + k) as u64) == Ok::<u64, AppendError>((expected + k + 1) as u64),
{
}

/// What became of an appended record.
#[derive(Debug, Clone, Copy, PartialEq, Eq, Structural)]
pub enum RecordDisposition {
    /// On time.
    Accepted,
    /// Behind the watermark but within the allowed lateness.
    AcceptedLate,
    /// Beyond the allowed lateness, and accepted by the stream's late policy.
    AcceptedTooLate,
    /// Beyond the allowed lateness, and kept apart for inspection.
    SideOutput,
    /// Beyond the allowed lateness, and dropped.
    Dropped,
}

pub open spec fn spec_record_disposition(late: bool, too_late: bool, policy: LatePolicy) -> RecordDisposition {
    if too_late {
        match policy {
            LatePolicy::Drop => RecordDisposition::Dropped,
            LatePolicy::SideOutput => RecordDisposition::SideOutput,
            LatePolicy::Accept => RecordDisposition::AcceptedTooLate,
        }
    } else if late {
        RecordDisposition::AcceptedLate
    } else {
        RecordDisposition::Accepted
    }
}

/// What the late policy does with a record, given whether it is behind the watermark and
/// whether it is beyond the allowed lateness.
pub fn record_disposition(late: bool, too_late: bool, policy: LatePolicy) -> (d: RecordDisposition)
    ensures
        d == spec_record_disposition(late, too_late, policy),
{
    if too_late {
        match policy {
            LatePolicy::Drop => RecordDisposition::Dropped,
            LatePolicy::SideOutput => RecordDisposition::SideOutput,
            LatePolicy::Accept => RecordDisposition::AcceptedTooLate,
        }
    } else if late {
        RecordDisposition::AcceptedLate
    } else {
        RecordDisposition::Accepted
    }
}

/// Whether the record joins the stream, so that windows and operators see it: every
/// record within the allowed lateness, and others only under the accept policy.
pub fn is_accepted(too_late: bool, policy: LatePolicy) -> (accepted: bool)
    ensures
        accepted == (!too_late || policy == LatePolicy::Accept),
{
    !too_late || policy == LatePolicy::Accept
}

/// The name a disposition is reported under.
pub fn disposition_name(d: RecordDisposition) -> (name: &'static str)
    ensures
        name@ == match d {
            RecordDisposition::Accepted => "accepted"@,
            RecordDisposition::AcceptedLate => "accepted_late"@,
            RecordDisposition::AcceptedTooLate => "accepted_too_late"@,
            RecordDisposition::SideOutput => "side_output"@,
            RecordDisposition::Dropped => "dropped"@,
        },
{
    match d {
        RecordDisposition::Accepted => "accepted",
        RecordDisposition::AcceptedLate => "accepted_late",
        RecordDisposition::AcceptedTooLate => "accepted_too_late",
        RecordDisposition::SideOutput => "side_output",
        RecordDisposition::Dropped => "dropped",
    }
}

/// The contents by which a record indexed under an event id is recognised again: its
/// partition, the bit pattern of its event time, its key, the JSON text of its value (as
/// the value serializes, with object members in key order) and its kind of change.
/// Two records are compared by `same_contents`, which reads event times and values as
/// numbers compare.
pub struct IndexedRecord {
    pub partition: u32,
    pub event_time_bits: u64,
    pub key: Option<String>,
    pub value_json: Vec<u8>,
    pub kind: ChangeKind,
}

pub struct IndexedRecordView {
    pub partition: u32,
    pub event_time_bits: u64,
    pub key: Option<Seq<char>>,
    pub value_json: Seq<u8>,
    pub kind: ChangeKind,
}

impl View for IndexedRecord {
    type V = IndexedRecordView;

    open spec fn view(&self) -> IndexedRecordView {
        IndexedRecordView {
            partition: self.partition,
            event_time_bits: self.event_time_bits,
            key: match self.key {
                Some(k) => Some(k@),
                None => None,
            },
            value_json: self.value_json@,
            kind: self.kind,
        }
    }
}

/// Whether two `f64` bit patterns hold equal numbers, as `==` compares them: the two zeros
/// are equal, and NaN equals nothing.
pub open spec fn float_bits_equal(a: u64, b: u64) -> bool {
    let neg_zero: u64 = 0x8000_0000_0000_0000;
    let is_nan = |x: u64| (0x7ff0_0000_0000_0000 < x && x < neg_zero) || 0xfff0_0000_0000_0000 < x;
    ((a == 0 || a == neg_zero) && (b == 0 || b == neg_zero)) || (a == b && !is_nan(a))
}

pub fn event_times_equal(a: u64, b: u64) -> (eq: bool)
    ensures
        eq == float_bits_equal(a, b),
{
    let neg_zero: u64 = 0x8000_0000_0000_0000;
    if (a == 0 || a == neg_zero) && (b == 0 || b == neg_zero) {
        return true;
    }
    a == b && !((0x7ff0_0000_0000_0000u64 < a && a < neg_zero) || 0xfff0_0000_0000_0000u64 < a)
}

pub open spec fn is_number_continuation(c: u8) -> bool {
    (48 <= c <= 57) || c == 101 || c == 69 || c == 46
}

/// Whether the serialized negative zero `-0.0` stands as a whole number token at `i`.
pub open spec fn negative_zero_at(s: Seq<u8>, i: int) -> bool {
    &&& 0 <= i
    &&& i + 4 <= s.len()
    &&& s[i] == 45u8 && s[i + 1] == 48u8 && s[i + 2] == 46u8 && s[i + 3] == 48u8
    &&& (i + 4 == s.len() || !is_number_continuation(s[i + 4]))
}

/// JSON text from position `i`, read with the given string state, with every negative zero
/// outside strings written as `0.0`.
pub open spec fn zeros_unsigned_from(s: Seq<u8>, i: int, in_string: bool, escaped: bool) -> Seq<u8>
    decreases s.len() - i,
{
    if i < 0 || i >= s.len() {
        Seq::empty()
    } else {
        let c = s[i];
        if in_string {
            if escaped {
                seq![c] + zeros_unsigned_from(s, i + 1, true, false)
            } else if c == 92u8 {
                seq![c] + zeros_unsigned_from(s, i + 1, true, true)
            } else if c == 34u8 {
                seq![c] + zeros_unsigned_from(s, i + 1, false, false)
            } else {
                seq![c] + zeros_unsigned_from(s, i + 1, true, false)
            }
        } else if c == 34u8 {
            seq![c] + zeros_unsigned_from(s, i + 1, true, false)
        } else if negative_zero_at(s, i) {
            seq![48u8, 46u8, 48u8] + zeros_unsigned_from(s, i + 4, false, false)
        } else {
            seq![c] + zeros_unsigned_from(s, i + 1, false, false)
        }
    }
}

/// Serialized JSON with its negative zeros written as `0.0`, so that two texts are equal
/// exactly when the values they serialize compare equal.
pub open spec fn zeros_unsigned(s: Seq<u8>) -> Seq<u8> {
    zeros_unsigned_from(s, 0, false, false)
}

pub fn unsign_zeros(s: &[u8]) -> (out: Vec<u8>)
    ensures
        out@ == zeros_unsigned(s@),
{
    let mut out: Vec<u8> = Vec::new();
    let mut i: usize = 0;
    let mut in_string = false;
    let mut escaped = false;
    while i < s.len()
        invariant
            i <= s@.len(),
            in_string || !escaped,
            out@ + zeros_unsigned_from(s@, i as int, in_string, escaped) == zeros_unsigned(s@),
        decreases s.len() - i,
    {
        let c = s[i];
        let ghost before = out@;
        let ghost rest = zeros_unsigned_from(s@, i as int, in_string, escaped);
        if in_string {
            let next_escaped = !escaped && c == 92u8;
            let next_in_string = escaped || c != 34u8;
            assert(rest == seq![c] + zeros_unsigned_from(s@, i + 1, next_in_string, next_escaped));
            out.push(c);
            assert(out@ + zeros_unsigned_from(s@, i + 1, next_in_string, next_escaped) =~= before + rest);
            escaped = next_escaped;
            in_string = next_in_string;
            i = i + 1;
        } else if c == 34u8 {
            assert(rest == seq![c] + zeros_unsigned_from(s@, i + 1, true, false));
            out.push(c);
            assert(out@ + zeros_unsigned_from(s@, i + 1, true, false) =~= before + rest);
            in_string = true;
            i = i + 1;
        } else if c == 45u8 && s.len() - i >= 4 && s[i + 1] == 48u8 && s[i + 2] == 46u8
            && s[i + 3] == 48u8 && (s.len() - i == 4 || !((48u8 <= s[i + 4] && s[i + 4] <= 57u8)
            || s[i + 4] == 101u8 || s[i + 4] == 69u8 || s[i + 4] == 46u8)) {
            assert(negative_zero_at(s@, i as int));
            assert(rest == seq![48u8, 46u8, 48u8] + zeros_unsigned_from(s@, i + 4, false, false));
            out.push(48u8);
            out.push(46u8);
            out.push(48u8);
            assert(out@ =~= before + seq![48u8, 46u8, 48u8]);
            assert(out@ + zeros_unsigned_from(s@, i + 4, false, false) =~= before + rest);
            i = i + 4;
        } else {
            assert(!negative_zero_at(s@, i as int));
            assert(rest == seq![c] + zeros_unsigned_from(s@, i + 1, false, false));
            out.push(c);
            assert(out@ + zeros_unsigned_from(s@, i + 1, false, false) =~= before + rest);
            i = i + 1;
        }
    }
    out
}

/// Whether two indexed records hold the same contents, as the stored record is compared
/// with a new one: equal partition, key and kind, equal event times as numbers, and values
/// that are equal once their negative zeros count as zeros.
pub open spec fn same_contents(a: IndexedRecordView, b: IndexedRecordView) -> bool {
    &&& a.partition == b.partition
    &&& float_bits_equal(a.event_time_bits, b.event_time_bits)
    &&& a.key == b.key
    &&& zeros_unsigned(a.value_json) == zeros_unsigned(b.value_json)
    &&& a.kind == b.kind
}


proof fn lemma_unsigned_without_minus(s: Seq<u8>, i: int, in_string: bool, escaped: bool)
    requires
        0 <= i <= s.len(),
        forall|j: int| 0 <= j < s.len() ==> s[j] != 45u8,
    ensures
        zeros_unsigned_from(s, i, in_string, escaped) == s.subrange(i, s.len() as int),
    decreases s.len() - i,
{
    if i < s.len() {
        let c = s[i];
        let st = if in_string { !escaped && c == 92u8 } else { false };
        let ins = if in_string { escaped || c != 34u8 } else { c == 34u8 };
        lemma_unsigned_without_minus(s, i + 1, ins, st);
        assert(s.subrange(i, s.len() as int) =~= seq![c] + s.subrange(i + 1, s.len() as int));
    } else {
        assert(s.subrange(i, s.len() as int) =~= Seq::<u8>::empty());
    }
}

/// A reused event id is a duplicate only for the same record: records that differ in
/// partition, key or kind of change, whose event times are different numbers, or whose
/// values differ without a sign anywhere in their text, never have the same contents, so
/// appending such a record under a stored id is refused; the same record is a duplicate.
pub proof fn law_reused_event_id_needs_same_record(existing: IndexedRecordView, request: IndexedRecordView)
    ensures
        same_contents(existing, request) ==> {
            &&& existing.partition == request.partition
            &&& existing.key == request.key
            &&& existing.kind == request.kind
        },
        (existing.event_time_bits != request.event_time_bits && existing.event_time_bits != 0
            && existing.event_time_bits != 0x8000_0000_0000_0000) ==> !same_contents(existing, request),
        existing.value_json == request.value_json && existing.partition == request.partition
            && existing.key == request.key && existing.kind == request.kind
            && existing.event_time_bits == request.event_time_bits
            && existing.event_time_bits < 0x7ff0_0000_0000_0000 ==> same_contents(existing, request),
        (existing.value_json != request.value_json && (forall|j: int|
            0 <= j < existing.value_json.len() ==> existing.value_json[j] != 45u8) && (forall|j: int|
            0 <= j < request.value_json.len() ==> request.value_json[j] != 45u8)) ==> !same_contents(
            existing,
            request,
        ),
{
    let a = existing.value_json;
    let b = request.value_json;
    if (forall|j: int| 0 <= j < a.len() ==> a[j] != 45u8) && (forall|j: int| 0 <= j < b.len() ==> b[j] != 45u8) {
        lemma_unsigned_without_minus(a, 0, false, false);
        lemma_unsigned_without_minus(b, 0, false, false);
        assert(a.subrange(0, a.len() as int) =~= a);
        assert(b.subrange(0, b.len() as int) =~= b);
    }
}
/// Whether two indexed records have the same contents.
pub fn records_match(a: &IndexedRecord, b: &IndexedRecord) -> (same: bool)
    ensures
        same == same_contents(a@, b@),
{
    let keys_same = match (&a.key, &b.key) {
        (Some(x), Some(y)) => str_eq(x.as_str(), y.as_str()),
        (None, None) => true,
        _ => false,
    };
    if !(a.partition == b.partition && event_times_equal(a.event_time_bits, b.event_time_bits)
        && keys_same && a.kind == b.kind) {
        return false;
    }
    let x = unsign_zeros(a.value_json.as_slice());
    let y = unsign_zeros(b.value_json.as_slice());
    bytes_eq(x.as_slice(), y.as_slice())
}

/// What an append does with its event id.
#[derive(Debug, Clone, Copy, PartialEq, Eq, Structural)]
pub enum StreamAppend {
    /// The id is new: the record is written and indexed under it.
    Write,
    /// The same record was appended before: the append answers it as a duplicate and
    /// writes nothing.
    Duplicate,
}

/// Idempotent appends: a record whose event id is not yet indexed is written; one whose id
/// already names the same contents is a duplicate; reusing an id for other contents is
/// refused.
pub fn stream_append_decision(existing: Option<&IndexedRecord>, request: &IndexedRecord) -> (r: Result<StreamAppend, AppendError>)
    ensures
        existing is None ==> r == Ok::<StreamAppend, AppendError>(StreamAppend::Write),
        existing matches Some(e) ==> r == if same_contents(e@, request@) {
            Ok::<StreamAppend, AppendError>(StreamAppend::Duplicate)
        } else {
            Err(AppendError::EventIdReused)
        },
{
    match existing {
        None => Ok(StreamAppend::Write),
        Some(e) => if records_match(e, request) {
            Ok(StreamAppend::Duplicate)
        } else {
            Err(AppendError::EventIdReused)
        },
    }
}

} // verus!
