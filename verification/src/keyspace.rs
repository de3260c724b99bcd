//! The ordered key layout of the durable store. Identifiers are base64url-encoded so that `/`
//! separates components, and numbers are zero-padded so that byte order is numeric order.
use base64::Engine;
use crate::text::{
    lemma_radix_len, lemma_radix_order, lemma_text_lt_common_prefix, lemma_text_lt_extend,
    push_radix, radix_pow, radix_text, text_lt,
};
use vstd::prelude::*;
use vstd::utf8::encode_utf8;

verus! {

/// The unpadded URL-safe base64 text of a byte string (RFC 4648, section 5).
pub uninterp spec fn base64_url_no_pad(bytes: Seq<u8>) -> Seq<char>;

/// The URL-safe base64 alphabet: letters, digits, `-` and `_`.
pub open spec fn is_url_safe_char(c: char) -> bool {
    ('A' <= c <= 'Z') || ('a' <= c <= 'z') || ('0' <= c <= '9') || c == '-' || c == '_'
}

/// Calls `base64::engine::general_purpose::URL_SAFE_NO_PAD.encode`. The contract claims what
/// the crate documents of this engine: its output is drawn from the URL-safe alphabet
/// (`alphabet.rs`, `URL_SAFE`), its length is four characters per three bytes with two or
/// three for a final partial group (`encode.rs`, `encoded_len` without padding), and decoding
/// gives the input back, so no other input has the same text.
#[verifier::external_body]
fn base64_url_encode(bytes: &[u8]) -> (text: String)
    ensures
        text@ == base64_url_no_pad(bytes@),
        text@.len() == (4 * bytes@.len() + 2) / 3,
        forall|i: int| 0 <= i < text@.len() ==> is_url_safe_char(#[trigger] text@[i]),
        forall|other: Seq<u8>| #[trigger] base64_url_no_pad(other) == text@ ==> other == bytes@,
{
    base64::engine::general_purpose::URL_SAFE_NO_PAD.encode(bytes)
}

/// The key component of an identifier: the base64url text of its UTF-8 bytes.
pub open spec fn encoded_text(id: Seq<char>) -> Seq<char> {
    base64_url_no_pad(encode_utf8(id))
}

/// Encodes an identifier for use as one key component.
pub fn encoded(value: &str) -> (text: String)
    ensures
        text@ == encoded_text(value@),
        text@.len() == (4 * encode_utf8(value@).len() + 2) / 3,
        forall|i: int| 0 <= i < text@.len() ==> is_url_safe_char(#[trigger] text@[i]),
        forall|other: Seq<char>| #[trigger] encoded_text(other) == text@ ==> other == value@,
{
    let text = base64_url_encode(value.as_bytes());
    proof {
        assert forall|other: Seq<char>| #[trigger] encoded_text(other) == text@ implies other
            == value@ by {
            vstd::utf8::encode_utf8_decode_utf8(other);
            vstd::utf8::encode_utf8_decode_utf8(value@);
        }
    }
    text
}

pub(crate) fn push_encoded(key: &mut String, value: &str)
    ensures
        final(key)@ == old(key)@ + encoded_text(value@),
{
    let text = encoded(value);
    key.append(text.as_str());
}

/// The order-preserving key of an `f64` bit pattern: non-negative values get their sign bit
/// set, negative values are complemented.
pub open spec fn spec_ordered_f64_bits(bits: u64) -> u64 {
    if bits & 0x8000_0000_0000_0000u64 == 0 {
        bits ^ 0x8000_0000_0000_0000u64
    } else {
        !bits
    }
}

/// Maps the bit pattern of an `f64` to a key that sorts as the value does.
pub fn ordered_f64_bits(bits: u64) -> (key: u64)
    ensures
        key == spec_ordered_f64_bits(bits),
{
    if bits & 0x8000_0000_0000_0000u64 == 0 {
        bits ^ 0x8000_0000_0000_0000u64
    } else {
        !bits
    }
}

pub open spec fn optional_text(key: Option<Seq<char>>) -> Seq<char> {
    match key {
        Some(k) => k,
        None => Seq::empty(),
    }
}

pub open spec fn spec_window_accumulator_key(
    schedule_id: Seq<char>,
    window_start_bits: u64,
    key: Option<Seq<char>>,
) -> Seq<char> {
    spec_window_accumulator_prefix(schedule_id) + radix_text(
        spec_ordered_f64_bits(window_start_bits) as nat,
        16,
        16,
    ) + "/"@ + encoded_text(optional_text(key))
}

pub open spec fn option_view(key: Option<&str>) -> Option<Seq<char>> {
    match key {
        Some(k) => Some(k@),
        None => None,
    }
}

/// The accumulator of one window and key, by the bit pattern of the window start.
pub fn window_accumulator_key(schedule_id: &str, window_start_bits: u64, key: Option<&str>) -> (k:
    String)
    ensures
        k@ == spec_window_accumulator_key(schedule_id@, window_start_bits, option_view(key)),
{
    let mut k = window_accumulator_prefix(schedule_id);
    push_radix(&mut k, ordered_f64_bits(window_start_bits), 16, 16);
    k.append("/");
    match key {
        Some(name) => push_encoded(&mut k, name),
        None => push_encoded(&mut k, ""),
    }
    proof {
        if key is None {
            reveal_strlit("");
        }
    }
    assert(k@ =~= spec_window_accumulator_key(schedule_id@, window_start_bits, option_view(key)));
    k
}

pub open spec fn spec_window_value_prefix(
    schedule_id: Seq<char>,
    window_start_bits: u64,
    key: Option<Seq<char>>,
) -> Seq<char> {
    "window-value/"@ + encoded_text(schedule_id) + "/"@ + radix_text(
        spec_ordered_f64_bits(window_start_bits) as nat,
        16,
        16,
    ) + "/"@ + encoded_text(optional_text(key)) + "/"@
}

/// The value counts that one window's maximum is kept from.
pub fn window_value_prefix(schedule_id: &str, window_start_bits: u64, key: Option<&str>) -> (k:
    String)
    ensures
        k@ == spec_window_value_prefix(schedule_id@, window_start_bits, option_view(key)),
{
    let mut k = String::new();
    k.append("window-value/");
    push_encoded(&mut k, schedule_id);
    k.append("/");
    push_radix(&mut k, ordered_f64_bits(window_start_bits), 16, 16);
    k.append("/");
    match key {
        Some(name) => push_encoded(&mut k, name),
        None => push_encoded(&mut k, ""),
    }
    proof {
        if key is None {
            reveal_strlit("");
        }
    }
    k.append("/");
    assert(k@ =~= spec_window_value_prefix(schedule_id@, window_start_bits, option_view(key)));
    k
}

/// The count of one value in one window, by the bit patterns of the window start and value.
pub fn window_value_key(schedule_id: &str, window_start_bits: u64, key: Option<&str>, value_bits: u64) -> (k:
    String)
    ensures
        k@ == spec_window_value_prefix(schedule_id@, window_start_bits, option_view(key))
            + radix_text(spec_ordered_f64_bits(value_bits) as nat, 16, 16),
{
    let mut k = window_value_prefix(schedule_id, window_start_bits, key);
    push_radix(&mut k, ordered_f64_bits(value_bits), 16, 16);
    k
}

/// The key-group-independent execution index of every shard.
pub fn process_shard_execution_prefix() -> (prefix: &'static str)
    ensures
        prefix@ == "process-shard-execution/"@,
{
    "process-shard-execution/"
}

/// Every batch lease.
pub fn process_batch_lease_prefix() -> (prefix: &'static str)
    ensures
        prefix@ == "process-batch-lease/"@,
{
    "process-batch-lease/"
}

pub open spec fn spec_temporal_join_version_key(
    join_id: Seq<char>,
    key: Seq<char>,
    event_time_bits: u64,
    sequence: u64,
) -> Seq<char> {
    spec_temporal_join_versions_for_key_prefix(join_id, key) + radix_text(
        spec_ordered_f64_bits(event_time_bits) as nat,
        16,
        16,
    ) + "/"@ + radix_text(sequence as nat, 20, 10)
}

/// One indexed version, ordered by event time and then by input sequence.
pub fn temporal_join_version_key(join_id: &str, key: &str, event_time_bits: u64, sequence: u64) -> (k:
    String)
    ensures
        k@ == spec_temporal_join_version_key(join_id@, key@, event_time_bits, sequence),
{
    let mut k = temporal_join_versions_for_key_prefix(join_id, key);
    push_radix(&mut k, ordered_f64_bits(event_time_bits), 16, 16);
    k.append("/");
    push_radix(&mut k, sequence, 20, 10);
    assert(k@ =~= spec_temporal_join_version_key(join_id@, key@, event_time_bits, sequence));
    k
}

/// The identity of one side of an emitted pair: its partition and offset, or `none`.
pub open spec fn pair_side_text(side: Option<(u32, u64)>) -> Seq<char> {
    match side {
        Some((partition, offset)) => radix_text(partition as nat, 10, 10) + "-"@ + radix_text(
            offset as nat,
            20,
            10,
        ),
        None => "none"@,
    }
}

fn push_pair_side(k: &mut String, side: Option<(u32, u64)>)
    ensures
        final(k)@ == old(k)@ + pair_side_text(side),
{
    match side {
        Some((partition, offset)) => {
            push_radix(k, partition as u64, 10, 10);
            k.append("-");
            push_radix(k, offset, 20, 10);
        },
        None => {
            k.append("none");
        },
    }
    assert(final(k)@ =~= old(k)@ + pair_side_text(side));
}

/// One emitted interval-join pair, by the positions of its left and right records.
pub fn interval_join_output_key(
    join_id: &str,
    left: Option<(u32, u64)>,
    right: Option<(u32, u64)>,
) -> (k: String)
    ensures
        k@ == spec_interval_join_output_prefix(join_id@) + pair_side_text(left) + "-"@
            + pair_side_text(right),
{
    let mut k = interval_join_output_prefix(join_id);
    push_pair_side(&mut k, left);
    k.append("-");
    push_pair_side(&mut k, right);
    k
}

pub open spec fn spec_workflow_key(id: Seq<char>) -> Seq<char> {
    "workflow/"@ + encoded_text(id)
}

/// The workflow record.
pub fn workflow_key(id: &str) -> (out: String)
    ensures
        out@ == spec_workflow_key(id@),
{
    let mut out = String::new();
    out.append("workflow/");
    push_encoded(&mut out, id);
    assert(out@ =~= spec_workflow_key(id@));
    out
}

pub open spec fn spec_workflow_task_key(id: Seq<char>) -> Seq<char> {
    "workflow-task/"@ + encoded_text(id)
}

/// The pending task of a workflow.
pub fn workflow_task_key(id: &str) -> (out: String)
    ensures
        out@ == spec_workflow_task_key(id@),
{
    let mut out = String::new();
    out.append("workflow-task/");
    push_encoded(&mut out, id);
    assert(out@ =~= spec_workflow_task_key(id@));
    out
}

pub open spec fn spec_workflow_task_token_key(token: Seq<char>) -> Seq<char> {
    "workflow-task-token/"@ + token
}

/// The lease of a workflow task, by its token.
pub fn workflow_task_token_key(token: &str) -> (out: String)
    ensures
        out@ == spec_workflow_task_token_key(token@),
{
    let mut out = String::new();
    out.append("workflow-task-token/");
    out.append(token);
    assert(out@ =~= spec_workflow_task_token_key(token@));
    out
}

pub open spec fn spec_workflow_deadline_key(id: Seq<char>) -> Seq<char> {
    "workflow-deadline/"@ + encoded_text(id)
}

/// The execution deadline of a workflow.
pub fn workflow_deadline_key(id: &str) -> (out: String)
    ensures
        out@ == spec_workflow_deadline_key(id@),
{
    let mut out = String::new();
    out.append("workflow-deadline/");
    push_encoded(&mut out, id);
    assert(out@ =~= spec_workflow_deadline_key(id@));
    out
}

pub open spec fn spec_workflow_child_prefix(parent_id: Seq<char>) -> Seq<char> {
    "workflow-child/"@ + encoded_text(parent_id) + "/"@
}

/// All children of a workflow.
pub fn workflow_child_prefix(parent_id: &str) -> (out: String)
    ensures
        out@ == spec_workflow_child_prefix(parent_id@),
{
    let mut out = String::new();
    out.append("workflow-child/");
    push_encoded(&mut out, parent_id);
    out.append("/");
    assert(out@ =~= spec_workflow_child_prefix(parent_id@));
    out
}

pub open spec fn spec_workflow_child_key(parent_id: Seq<char>, child_id: Seq<char>) -> Seq<char> {
    spec_workflow_child_prefix(parent_id) + encoded_text(child_id)
}

/// One child of a workflow.
pub fn workflow_child_key(parent_id: &str, child_id: &str) -> (out: String)
    ensures
        out@ == spec_workflow_child_key(parent_id@, child_id@),
{
    let mut out = String::new();
    let prefix = workflow_child_prefix(parent_id);
    out.append(prefix.as_str());
    push_encoded(&mut out, child_id);
    assert(out@ =~= spec_workflow_child_key(parent_id@, child_id@));
    out
}

pub open spec fn spec_event_prefix(id: Seq<char>) -> Seq<char> {
    "event/"@ + encoded_text(id) + "/"@
}

/// The history of a workflow.
pub fn event_prefix(id: &str) -> (out: String)
    ensures
        out@ == spec_event_prefix(id@),
{
    let mut out = String::new();
    out.append("event/");
    push_encoded(&mut out, id);
    out.append("/");
    assert(out@ =~= spec_event_prefix(id@));
    out
}

pub open spec fn spec_activity_key(id: u64) -> Seq<char> {
    "activity/"@ + radix_text(id as nat, 20, 10)
}

/// An activity task.
pub fn activity_key(id: u64) -> (out: String)
    ensures
        out@ == spec_activity_key(id),
{
    let mut out = String::new();
    out.append("activity/");
    push_radix(&mut out, id, 20, 10);
    assert(out@ =~= spec_activity_key(id));
    out
}

pub open spec fn spec_process_workflow_id(process_id: Seq<char>, key: Seq<char>, sequence: u64) -> Seq<char> {
    "process/"@ + process_id + "/"@ + encoded_text(key) + "/"@ + radix_text(sequence as nat, 20, 10)
}

/// The workflow that runs one process event: the process, the event's key and its mailbox
/// sequence.
pub fn process_workflow_id(process_id: &str, key: &str, sequence: u64) -> (out: String)
    ensures
        out@ == spec_process_workflow_id(process_id@, key@, sequence),
{
    let mut out = String::new();
    out.append("process/");
    out.append(process_id);
    out.append("/");
    push_encoded(&mut out, key);
    out.append("/");
    push_radix(&mut out, sequence, 20, 10);
    assert(out@ =~= spec_process_workflow_id(process_id@, key@, sequence));
    out
}

pub open spec fn spec_archive_key(id: Seq<char>, run_number: u32) -> Seq<char> {
    "archive/"@ + encoded_text(id) + "/"@ + radix_text(run_number as nat, 20, 10)
}

/// The archived history of a run that continued as new.
pub fn archive_key(id: &str, run_number: u32) -> (out: String)
    ensures
        out@ == spec_archive_key(id@, run_number),
{
    let mut out = String::new();
    out.append("archive/");
    push_encoded(&mut out, id);
    out.append("/");
    push_radix(&mut out, run_number as u64, 20, 10);
    assert(out@ =~= spec_archive_key(id@, run_number));
    out
}

pub open spec fn spec_timer_key(id: Seq<char>, command_id: u64) -> Seq<char> {
    "timer/"@ + encoded_text(id) + "/"@ + radix_text(command_id as nat, 20, 10)
}

/// A workflow timer.
pub fn timer_key(id: &str, command_id: u64) -> (out: String)
    ensures
        out@ == spec_timer_key(id@, command_id),
{
    let mut out = String::new();
    out.append("timer/");
    push_encoded(&mut out, id);
    out.append("/");
    push_radix(&mut out, command_id, 20, 10);
    assert(out@ =~= spec_timer_key(id@, command_id));
    out
}

pub open spec fn spec_stream_config_key(stream: Seq<char>) -> Seq<char> {
    "stream/"@ + encoded_text(stream) + "/config"@
}

/// The configuration of a stream.
pub fn stream_config_key(stream: &str) -> (out: String)
    ensures
        out@ == spec_stream_config_key(stream@),
{
    let mut out = String::new();
    out.append("stream/");
    push_encoded(&mut out, stream);
    out.append("/config");
    assert(out@ =~= spec_stream_config_key(stream@));
    out
}

pub open spec fn spec_stream_state_key(stream: Seq<char>) -> Seq<char> {
    "stream/"@ + encoded_text(stream) + "/state"@
}

/// The combined watermark state of a stream.
pub fn stream_state_key(stream: &str) -> (out: String)
    ensures
        out@ == spec_stream_state_key(stream@),
{
    let mut out = String::new();
    out.append("stream/");
    push_encoded(&mut out, stream);
    out.append("/state");
    assert(out@ =~= spec_stream_state_key(stream@));
    out
}

pub open spec fn spec_stream_partition_key(stream: Seq<char>, partition: u32) -> Seq<char> {
    "stream/"@ + encoded_text(stream) + "/partition/"@ + radix_text(partition as nat, 10, 10)
}

/// The state of one stream partition.
pub fn stream_partition_key(stream: &str, partition: u32) -> (out: String)
    ensures
        out@ == spec_stream_partition_key(stream@, partition),
{
    let mut out = String::new();
    out.append("stream/");
    push_encoded(&mut out, stream);
    out.append("/partition/");
    push_radix(&mut out, partition as u64, 10, 10);
    assert(out@ =~= spec_stream_partition_key(stream@, partition));
    out
}

pub open spec fn spec_stream_record_prefix(stream: Seq<char>) -> Seq<char> {
    "stream-record/"@ + encoded_text(stream) + "/"@
}

/// All records of a stream.
pub fn stream_record_prefix(stream: &str) -> (out: String)
    ensures
        out@ == spec_stream_record_prefix(stream@),
{
    let mut out = String::new();
    out.append("stream-record/");
    push_encoded(&mut out, stream);
    out.append("/");
    assert(out@ =~= spec_stream_record_prefix(stream@));
    out
}

pub open spec fn spec_stream_record_key(stream: Seq<char>, partition: u32, offset: u64) -> Seq<char> {
    spec_stream_record_prefix(stream) + radix_text(partition as nat, 10, 10) + "/"@ + radix_text(offset as nat, 20, 10)
}

/// One record of a stream, by partition and offset.
pub fn stream_record_key(stream: &str, partition: u32, offset: u64) -> (out: String)
    ensures
        out@ == spec_stream_record_key(stream@, partition, offset),
{
    let mut out = String::new();
    let prefix = stream_record_prefix(stream);
    out.append(prefix.as_str());
    push_radix(&mut out, partition as u64, 10, 10);
    out.append("/");
    push_radix(&mut out, offset, 20, 10);
    assert(out@ =~= spec_stream_record_key(stream@, partition, offset));
    out
}

pub open spec fn spec_stream_batch_key(stream: Seq<char>, last_sequence: u64) -> Seq<char> {
    "stream-batch/"@ + encoded_text(stream) + "/"@ + radix_text(last_sequence as nat, 20, 10)
}

/// A committed ingestion batch.
pub fn stream_batch_key(stream: &str, last_sequence: u64) -> (out: String)
    ensures
        out@ == spec_stream_batch_key(stream@, last_sequence),
{
    let mut out = String::new();
    out.append("stream-batch/");
    push_encoded(&mut out, stream);
    out.append("/");
    push_radix(&mut out, last_sequence, 20, 10);
    assert(out@ =~= spec_stream_batch_key(stream@, last_sequence));
    out
}

pub open spec fn spec_late_record_prefix(stream: Seq<char>) -> Seq<char> {
    "late-record/"@ + encoded_text(stream) + "/"@
}

/// All late records of a stream.
pub fn late_record_prefix(stream: &str) -> (out: String)
    ensures
        out@ == spec_late_record_prefix(stream@),
{
    let mut out = String::new();
    out.append("late-record/");
    push_encoded(&mut out, stream);
    out.append("/");
    assert(out@ =~= spec_late_record_prefix(stream@));
    out
}

pub open spec fn spec_late_record_key(stream: Seq<char>, sequence: u64) -> Seq<char> {
    spec_late_record_prefix(stream) + radix_text(sequence as nat, 20, 10)
}

/// One late record of a stream.
pub fn late_record_key(stream: &str, sequence: u64) -> (out: String)
    ensures
        out@ == spec_late_record_key(stream@, sequence),
{
    let mut out = String::new();
    let prefix = late_record_prefix(stream);
    out.append(prefix.as_str());
    push_radix(&mut out, sequence, 20, 10);
    assert(out@ =~= spec_late_record_key(stream@, sequence));
    out
}

pub open spec fn spec_watermark_timer_prefix(stream: Seq<char>) -> Seq<char> {
    "watermark-timer/"@ + encoded_text(stream) + "/"@
}

/// All watermark timers on a stream.
pub fn watermark_timer_prefix(stream: &str) -> (out: String)
    ensures
        out@ == spec_watermark_timer_prefix(stream@),
{
    let mut out = String::new();
    out.append("watermark-timer/");
    push_encoded(&mut out, stream);
    out.append("/");
    assert(out@ =~= spec_watermark_timer_prefix(stream@));
    out
}

pub open spec fn spec_watermark_timer_key(stream: Seq<char>, workflow_id: Seq<char>, command_id: u64) -> Seq<char> {
    spec_watermark_timer_prefix(stream) + encoded_text(workflow_id) + "/"@ + radix_text(command_id as nat, 20, 10)
}

/// One watermark timer.
pub fn watermark_timer_key(stream: &str, workflow_id: &str, command_id: u64) -> (out: String)
    ensures
        out@ == spec_watermark_timer_key(stream@, workflow_id@, command_id),
{
    let mut out = String::new();
    let prefix = watermark_timer_prefix(stream);
    out.append(prefix.as_str());
    push_encoded(&mut out, workflow_id);
    out.append("/");
    push_radix(&mut out, command_id, 20, 10);
    assert(out@ =~= spec_watermark_timer_key(stream@, workflow_id@, command_id));
    out
}

pub open spec fn spec_stream_schedule_key(schedule_id: Seq<char>) -> Seq<char> {
    "stream-schedule/"@ + encoded_text(schedule_id)
}

/// A window schedule.
pub fn stream_schedule_key(schedule_id: &str) -> (out: String)
    ensures
        out@ == spec_stream_schedule_key(schedule_id@),
{
    let mut out = String::new();
    out.append("stream-schedule/");
    push_encoded(&mut out, schedule_id);
    assert(out@ =~= spec_stream_schedule_key(schedule_id@));
    out
}

pub open spec fn spec_window_accumulator_prefix(schedule_id: Seq<char>) -> Seq<char> {
    "window-accumulator/"@ + encoded_text(schedule_id) + "/"@
}

/// All open window accumulators of a schedule.
pub fn window_accumulator_prefix(schedule_id: &str) -> (out: String)
    ensures
        out@ == spec_window_accumulator_prefix(schedule_id@),
{
    let mut out = String::new();
    out.append("window-accumulator/");
    push_encoded(&mut out, schedule_id);
    out.append("/");
    assert(out@ =~= spec_window_accumulator_prefix(schedule_id@));
    out
}

pub open spec fn spec_operator_change_prefix(operator_id: Seq<char>) -> Seq<char> {
    "operator-change/"@ + encoded_text(operator_id) + "/"@
}

/// The changelog of an operator.
pub fn operator_change_prefix(operator_id: &str) -> (out: String)
    ensures
        out@ == spec_operator_change_prefix(operator_id@),
{
    let mut out = String::new();
    out.append("operator-change/");
    push_encoded(&mut out, operator_id);
    out.append("/");
    assert(out@ =~= spec_operator_change_prefix(operator_id@));
    out
}

pub open spec fn spec_operator_edge_key(operator_id: Seq<char>) -> Seq<char> {
    "operator-edge/"@ + encoded_text(operator_id)
}

/// The edge from an operator to its output stream.
pub fn operator_edge_key(operator_id: &str) -> (out: String)
    ensures
        out@ == spec_operator_edge_key(operator_id@),
{
    let mut out = String::new();
    out.append("operator-edge/");
    push_encoded(&mut out, operator_id);
    assert(out@ =~= spec_operator_edge_key(operator_id@));
    out
}

pub open spec fn spec_operator_edge_pending_prefix(operator_id: Seq<char>) -> Seq<char> {
    "operator-edge-pending/"@ + encoded_text(operator_id) + "/"@
}

/// Changes not yet forwarded along an edge.
pub fn operator_edge_pending_prefix(operator_id: &str) -> (out: String)
    ensures
        out@ == spec_operator_edge_pending_prefix(operator_id@),
{
    let mut out = String::new();
    out.append("operator-edge-pending/");
    push_encoded(&mut out, operator_id);
    out.append("/");
    assert(out@ =~= spec_operator_edge_pending_prefix(operator_id@));
    out
}

pub open spec fn spec_checkpoint_barrier_key(checkpoint_id: Seq<char>) -> Seq<char> {
    "checkpoint-barrier/"@ + encoded_text(checkpoint_id)
}

/// A checkpoint barrier.
pub fn checkpoint_barrier_key(checkpoint_id: &str) -> (out: String)
    ensures
        out@ == spec_checkpoint_barrier_key(checkpoint_id@),
{
    let mut out = String::new();
    out.append("checkpoint-barrier/");
    push_encoded(&mut out, checkpoint_id);
    assert(out@ =~= spec_checkpoint_barrier_key(checkpoint_id@));
    out
}

pub open spec fn spec_process_key(process_id: Seq<char>) -> Seq<char> {
    "process/"@ + encoded_text(process_id)
}

/// A durable process.
pub fn process_key(process_id: &str) -> (out: String)
    ensures
        out@ == spec_process_key(process_id@),
{
    let mut out = String::new();
    out.append("process/");
    push_encoded(&mut out, process_id);
    assert(out@ =~= spec_process_key(process_id@));
    out
}

pub open spec fn spec_process_stream_prefix(stream: Seq<char>) -> Seq<char> {
    "process-stream/"@ + encoded_text(stream) + "/"@
}

/// The processes reading a stream.
pub fn process_stream_prefix(stream: &str) -> (out: String)
    ensures
        out@ == spec_process_stream_prefix(stream@),
{
    let mut out = String::new();
    out.append("process-stream/");
    push_encoded(&mut out, stream);
    out.append("/");
    assert(out@ =~= spec_process_stream_prefix(stream@));
    out
}

pub open spec fn spec_process_stream_key(stream: Seq<char>, process_id: Seq<char>) -> Seq<char> {
    spec_process_stream_prefix(stream) + encoded_text(process_id)
}

/// One process reading a stream.
pub fn process_stream_key(stream: &str, process_id: &str) -> (out: String)
    ensures
        out@ == spec_process_stream_key(stream@, process_id@),
{
    let mut out = String::new();
    let prefix = process_stream_prefix(stream);
    out.append(prefix.as_str());
    push_encoded(&mut out, process_id);
    assert(out@ =~= spec_process_stream_key(stream@, process_id@));
    out
}

pub open spec fn spec_process_mailbox_prefix(process_id: Seq<char>) -> Seq<char> {
    "process-mailbox/"@ + encoded_text(process_id) + "/"@
}

/// The mailbox of a process.
pub fn process_mailbox_prefix(process_id: &str) -> (out: String)
    ensures
        out@ == spec_process_mailbox_prefix(process_id@),
{
    let mut out = String::new();
    out.append("process-mailbox/");
    push_encoded(&mut out, process_id);
    out.append("/");
    assert(out@ =~= spec_process_mailbox_prefix(process_id@));
    out
}

pub open spec fn spec_process_mailbox_key(process_id: Seq<char>, sequence: u64) -> Seq<char> {
    spec_process_mailbox_prefix(process_id) + radix_text(sequence as nat, 20, 10)
}

/// One mailbox item, by input sequence.
pub fn process_mailbox_key(process_id: &str, sequence: u64) -> (out: String)
    ensures
        out@ == spec_process_mailbox_key(process_id@, sequence),
{
    let mut out = String::new();
    let prefix = process_mailbox_prefix(process_id);
    out.append(prefix.as_str());
    push_radix(&mut out, sequence, 20, 10);
    assert(out@ =~= spec_process_mailbox_key(process_id@, sequence));
    out
}

pub open spec fn spec_process_shard_state_key(process_id: Seq<char>, shard: usize) -> Seq<char> {
    "process-shard/"@ + encoded_text(process_id) + "/"@ + radix_text(shard as nat, 4, 10)
}

/// The counters of one process shard.
pub fn process_shard_state_key(process_id: &str, shard: usize) -> (out: String)
    ensures
        out@ == spec_process_shard_state_key(process_id@, shard),
{
    let mut out = String::new();
    out.append("process-shard/");
    push_encoded(&mut out, process_id);
    out.append("/");
    push_radix(&mut out, shard as u64, 4, 10);
    assert(out@ =~= spec_process_shard_state_key(process_id@, shard));
    out
}

pub open spec fn spec_process_event_key(
    process_id: Seq<char>,
    shard: usize,
    key: Seq<char>,
    event_id: Seq<char>,
) -> Seq<char> {
    "process-event/"@ + encoded_text(process_id) + "/"@ + radix_text(shard as nat, 4, 10) + "/"@
        + encoded_text(key) + "/"@ + encoded_text(event_id)
}

/// The record a direct process event was admitted as, kept to recognize its retries.
pub fn process_event_key(process_id: &str, shard: usize, key: &str, event_id: &str) -> (out: String)
    ensures
        out@ == spec_process_event_key(process_id@, shard, key@, event_id@),
{
    let mut out = String::new();
    out.append("process-event/");
    push_encoded(&mut out, process_id);
    out.append("/");
    push_radix(&mut out, shard as u64, 4, 10);
    out.append("/");
    push_encoded(&mut out, key);
    out.append("/");
    push_encoded(&mut out, event_id);
    assert(out@ =~= spec_process_event_key(process_id@, shard, key@, event_id@));
    out
}

pub open spec fn spec_process_shard_mailbox_prefix(process_id: Seq<char>, shard: usize) -> Seq<char> {
    "process-shard-mailbox/"@ + encoded_text(process_id) + "/"@ + radix_text(shard as nat, 4, 10) + "/"@
}

/// The mailbox of one process shard.
pub fn process_shard_mailbox_prefix(process_id: &str, shard: usize) -> (out: String)
    ensures
        out@ == spec_process_shard_mailbox_prefix(process_id@, shard),
{
    let mut out = String::new();
    out.append("process-shard-mailbox/");
    push_encoded(&mut out, process_id);
    out.append("/");
    push_radix(&mut out, shard as u64, 4, 10);
    out.append("/");
    assert(out@ =~= spec_process_shard_mailbox_prefix(process_id@, shard));
    out
}

pub open spec fn spec_process_shard_mailbox_key(process_id: Seq<char>, shard: usize, sequence: u64) -> Seq<char> {
    spec_process_shard_mailbox_prefix(process_id, shard) + radix_text(sequence as nat, 20, 10)
}

/// One shard mailbox item, by input sequence.
pub fn process_shard_mailbox_key(process_id: &str, shard: usize, sequence: u64) -> (out: String)
    ensures
        out@ == spec_process_shard_mailbox_key(process_id@, shard, sequence),
{
    let mut out = String::new();
    let prefix = process_shard_mailbox_prefix(process_id, shard);
    out.append(prefix.as_str());
    push_radix(&mut out, sequence, 20, 10);
    assert(out@ =~= spec_process_shard_mailbox_key(process_id@, shard, sequence));
    out
}

pub open spec fn spec_process_shard_execution_key(shard: usize, process_id: Seq<char>, sequence: u64) -> Seq<char> {
    "process-shard-execution/"@ + radix_text(shard as nat, 4, 10) + "/"@ + encoded_text(process_id) + "/"@ + radix_text(sequence as nat, 20, 10)
}

/// One running shard execution.
pub fn process_shard_execution_key(shard: usize, process_id: &str, sequence: u64) -> (out: String)
    ensures
        out@ == spec_process_shard_execution_key(shard, process_id@, sequence),
{
    let mut out = String::new();
    out.append("process-shard-execution/");
    push_radix(&mut out, shard as u64, 4, 10);
    out.append("/");
    push_encoded(&mut out, process_id);
    out.append("/");
    push_radix(&mut out, sequence, 20, 10);
    assert(out@ =~= spec_process_shard_execution_key(shard, process_id@, sequence));
    out
}

pub open spec fn spec_process_active_key(process_id: Seq<char>, key: Seq<char>) -> Seq<char> {
    "process-active/"@ + encoded_text(process_id) + "/"@ + encoded_text(key)
}

/// The execution running for one process key.
pub fn process_active_key(process_id: &str, key: &str) -> (out: String)
    ensures
        out@ == spec_process_active_key(process_id@, key@),
{
    let mut out = String::new();
    out.append("process-active/");
    push_encoded(&mut out, process_id);
    out.append("/");
    push_encoded(&mut out, key);
    assert(out@ =~= spec_process_active_key(process_id@, key@));
    out
}

pub open spec fn spec_process_execution_key(workflow_id: Seq<char>) -> Seq<char> {
    "process-execution/"@ + encoded_text(workflow_id)
}

/// A process execution, by workflow.
pub fn process_execution_key(workflow_id: &str) -> (out: String)
    ensures
        out@ == spec_process_execution_key(workflow_id@),
{
    let mut out = String::new();
    out.append("process-execution/");
    push_encoded(&mut out, workflow_id);
    assert(out@ =~= spec_process_execution_key(workflow_id@));
    out
}

pub open spec fn spec_process_batch_lease_key(token: Seq<char>) -> Seq<char> {
    "process-batch-lease/"@ + encoded_text(token)
}

/// A batch lease, by token.
pub fn process_batch_lease_key(token: &str) -> (out: String)
    ensures
        out@ == spec_process_batch_lease_key(token@),
{
    let mut out = String::new();
    out.append("process-batch-lease/");
    push_encoded(&mut out, token);
    assert(out@ =~= spec_process_batch_lease_key(token@));
    out
}

pub open spec fn spec_process_partition_owner_key(shard: usize) -> Seq<char> {
    "process-partition-owner/"@ + radix_text(shard as nat, 4, 10)
}

/// The owner of one process partition.
pub fn process_partition_owner_key(shard: usize) -> (out: String)
    ensures
        out@ == spec_process_partition_owner_key(shard),
{
    let mut out = String::new();
    out.append("process-partition-owner/");
    push_radix(&mut out, shard as u64, 4, 10);
    assert(out@ =~= spec_process_partition_owner_key(shard));
    out
}

pub open spec fn spec_process_ready_prefix(shard: usize) -> Seq<char> {
    "process-ready/"@ + radix_text(shard as nat, 4, 10) + "/"@
}

/// Executions ready to lease on one partition.
pub fn process_ready_prefix(shard: usize) -> (out: String)
    ensures
        out@ == spec_process_ready_prefix(shard),
{
    let mut out = String::new();
    out.append("process-ready/");
    push_radix(&mut out, shard as u64, 4, 10);
    out.append("/");
    assert(out@ =~= spec_process_ready_prefix(shard));
    out
}

pub open spec fn spec_process_ready_key(shard: usize, process_id: Seq<char>, sequence: u64) -> Seq<char> {
    spec_process_ready_prefix(shard) + encoded_text(process_id) + "/"@ + radix_text(sequence as nat, 20, 10)
}

/// One ready execution.
pub fn process_ready_key(shard: usize, process_id: &str, sequence: u64) -> (out: String)
    ensures
        out@ == spec_process_ready_key(shard, process_id@, sequence),
{
    let mut out = String::new();
    let prefix = process_ready_prefix(shard);
    out.append(prefix.as_str());
    push_encoded(&mut out, process_id);
    out.append("/");
    push_radix(&mut out, sequence, 20, 10);
    assert(out@ =~= spec_process_ready_key(shard, process_id@, sequence));
    out
}

pub open spec fn spec_process_state_key(process_id: Seq<char>, key: Seq<char>) -> Seq<char> {
    "process-state/"@ + encoded_text(process_id) + "/"@ + encoded_text(key)
}

/// The committed state of one process key.
pub fn process_state_key(process_id: &str, key: &str) -> (out: String)
    ensures
        out@ == spec_process_state_key(process_id@, key@),
{
    let mut out = String::new();
    out.append("process-state/");
    push_encoded(&mut out, process_id);
    out.append("/");
    push_encoded(&mut out, key);
    assert(out@ =~= spec_process_state_key(process_id@, key@));
    out
}

pub open spec fn spec_process_output_key(process_id: Seq<char>, key: Seq<char>) -> Seq<char> {
    "process-output/"@ + encoded_text(process_id) + "/"@ + encoded_text(key)
}

/// The latest output of one process key.
pub fn process_output_key(process_id: &str, key: &str) -> (out: String)
    ensures
        out@ == spec_process_output_key(process_id@, key@),
{
    let mut out = String::new();
    out.append("process-output/");
    push_encoded(&mut out, process_id);
    out.append("/");
    push_encoded(&mut out, key);
    assert(out@ =~= spec_process_output_key(process_id@, key@));
    out
}

pub open spec fn spec_stream_event_id_key(stream: Seq<char>, event_id: Seq<char>) -> Seq<char> {
    "stream-event-id/"@ + encoded_text(stream) + "/"@ + encoded_text(event_id)
}

/// The record admitted under an event identifier.
pub fn stream_event_id_key(stream: &str, event_id: &str) -> (out: String)
    ensures
        out@ == spec_stream_event_id_key(stream@, event_id@),
{
    let mut out = String::new();
    out.append("stream-event-id/");
    push_encoded(&mut out, stream);
    out.append("/");
    push_encoded(&mut out, event_id);
    assert(out@ =~= spec_stream_event_id_key(stream@, event_id@));
    out
}

pub open spec fn spec_temporal_join_key(join_id: Seq<char>) -> Seq<char> {
    "temporal-join/"@ + encoded_text(join_id)
}

/// A temporal join.
pub fn temporal_join_key(join_id: &str) -> (out: String)
    ensures
        out@ == spec_temporal_join_key(join_id@),
{
    let mut out = String::new();
    out.append("temporal-join/");
    push_encoded(&mut out, join_id);
    assert(out@ =~= spec_temporal_join_key(join_id@));
    out
}

pub open spec fn spec_temporal_join_probe_prefix(join_id: Seq<char>) -> Seq<char> {
    "temporal-join-probe/"@ + encoded_text(join_id) + "/"@
}

/// Buffered probe records of a temporal join.
pub fn temporal_join_probe_prefix(join_id: &str) -> (out: String)
    ensures
        out@ == spec_temporal_join_probe_prefix(join_id@),
{
    let mut out = String::new();
    out.append("temporal-join-probe/");
    push_encoded(&mut out, join_id);
    out.append("/");
    assert(out@ =~= spec_temporal_join_probe_prefix(join_id@));
    out
}

pub open spec fn spec_temporal_join_probe_key(join_id: Seq<char>, key: Seq<char>, partition: u32, offset: u64) -> Seq<char> {
    spec_temporal_join_probe_prefix(join_id) + encoded_text(key) + "/"@ + radix_text(partition as nat, 10, 10) + "/"@ + radix_text(offset as nat, 20, 10)
}

/// One buffered probe record.
pub fn temporal_join_probe_key(join_id: &str, key: &str, partition: u32, offset: u64) -> (out: String)
    ensures
        out@ == spec_temporal_join_probe_key(join_id@, key@, partition, offset),
{
    let mut out = String::new();
    let prefix = temporal_join_probe_prefix(join_id);
    out.append(prefix.as_str());
    push_encoded(&mut out, key);
    out.append("/");
    push_radix(&mut out, partition as u64, 10, 10);
    out.append("/");
    push_radix(&mut out, offset, 20, 10);
    assert(out@ =~= spec_temporal_join_probe_key(join_id@, key@, partition, offset));
    out
}

pub open spec fn spec_temporal_join_version_prefix(join_id: Seq<char>) -> Seq<char> {
    "temporal-join-version/"@ + encoded_text(join_id) + "/"@
}

/// Indexed version records of a temporal join.
pub fn temporal_join_version_prefix(join_id: &str) -> (out: String)
    ensures
        out@ == spec_temporal_join_version_prefix(join_id@),
{
    let mut out = String::new();
    out.append("temporal-join-version/");
    push_encoded(&mut out, join_id);
    out.append("/");
    assert(out@ =~= spec_temporal_join_version_prefix(join_id@));
    out
}

pub open spec fn spec_temporal_join_versions_for_key_prefix(join_id: Seq<char>, key: Seq<char>) -> Seq<char> {
    spec_temporal_join_version_prefix(join_id) + encoded_text(key) + "/"@
}

/// Indexed versions of one join key.
pub fn temporal_join_versions_for_key_prefix(join_id: &str, key: &str) -> (out: String)
    ensures
        out@ == spec_temporal_join_versions_for_key_prefix(join_id@, key@),
{
    let mut out = String::new();
    let prefix = temporal_join_version_prefix(join_id);
    out.append(prefix.as_str());
    push_encoded(&mut out, key);
    out.append("/");
    assert(out@ =~= spec_temporal_join_versions_for_key_prefix(join_id@, key@));
    out
}

pub open spec fn spec_temporal_join_output_prefix(join_id: Seq<char>) -> Seq<char> {
    "temporal-join-output/"@ + encoded_text(join_id) + "/"@
}

/// Outputs of a temporal join.
pub fn temporal_join_output_prefix(join_id: &str) -> (out: String)
    ensures
        out@ == spec_temporal_join_output_prefix(join_id@),
{
    let mut out = String::new();
    out.append("temporal-join-output/");
    push_encoded(&mut out, join_id);
    out.append("/");
    assert(out@ =~= spec_temporal_join_output_prefix(join_id@));
    out
}

pub open spec fn spec_temporal_join_output_key(join_id: Seq<char>, partition: u32, offset: u64) -> Seq<char> {
    spec_temporal_join_output_prefix(join_id) + radix_text(partition as nat, 10, 10) + "/"@ + radix_text(offset as nat, 20, 10)
}

/// The output for one probe record.
pub fn temporal_join_output_key(join_id: &str, partition: u32, offset: u64) -> (out: String)
    ensures
        out@ == spec_temporal_join_output_key(join_id@, partition, offset),
{
    let mut out = String::new();
    let prefix = temporal_join_output_prefix(join_id);
    out.append(prefix.as_str());
    push_radix(&mut out, partition as u64, 10, 10);
    out.append("/");
    push_radix(&mut out, offset, 20, 10);
    assert(out@ =~= spec_temporal_join_output_key(join_id@, partition, offset));
    out
}

pub open spec fn spec_interval_join_key(join_id: Seq<char>) -> Seq<char> {
    "interval-join/"@ + encoded_text(join_id)
}

/// An interval join.
pub fn interval_join_key(join_id: &str) -> (out: String)
    ensures
        out@ == spec_interval_join_key(join_id@),
{
    let mut out = String::new();
    out.append("interval-join/");
    push_encoded(&mut out, join_id);
    assert(out@ =~= spec_interval_join_key(join_id@));
    out
}

pub open spec fn spec_interval_join_side_prefix(join_id: Seq<char>, side: Seq<char>) -> Seq<char> {
    "interval-join-"@ + side + "/"@ + encoded_text(join_id) + "/"@
}

/// Buffered records of one side of an interval join.
pub fn interval_join_side_prefix(join_id: &str, side: &str) -> (out: String)
    ensures
        out@ == spec_interval_join_side_prefix(join_id@, side@),
{
    let mut out = String::new();
    out.append("interval-join-");
    out.append(side);
    out.append("/");
    push_encoded(&mut out, join_id);
    out.append("/");
    assert(out@ =~= spec_interval_join_side_prefix(join_id@, side@));
    out
}

pub open spec fn spec_interval_join_side_key_prefix(join_id: Seq<char>, side: Seq<char>, key: Seq<char>) -> Seq<char> {
    spec_interval_join_side_prefix(join_id, side) + encoded_text(key) + "/"@
}

/// Buffered records of one side and key.
pub fn interval_join_side_key_prefix(join_id: &str, side: &str, key: &str) -> (out: String)
    ensures
        out@ == spec_interval_join_side_key_prefix(join_id@, side@, key@),
{
    let mut out = String::new();
    let prefix = interval_join_side_prefix(join_id, side);
    out.append(prefix.as_str());
    push_encoded(&mut out, key);
    out.append("/");
    assert(out@ =~= spec_interval_join_side_key_prefix(join_id@, side@, key@));
    out
}

pub open spec fn spec_interval_join_side_key(join_id: Seq<char>, side: Seq<char>, key: Seq<char>, partition: u32, offset: u64) -> Seq<char> {
    spec_interval_join_side_key_prefix(join_id, side, key) + radix_text(partition as nat, 10, 10) + "/"@ + radix_text(offset as nat, 20, 10)
}

/// One buffered record of an interval join side.
pub fn interval_join_side_key(join_id: &str, side: &str, key: &str, partition: u32, offset: u64) -> (out: String)
    ensures
        out@ == spec_interval_join_side_key(join_id@, side@, key@, partition, offset),
{
    let mut out = String::new();
    let prefix = interval_join_side_key_prefix(join_id, side, key);
    out.append(prefix.as_str());
    push_radix(&mut out, partition as u64, 10, 10);
    out.append("/");
    push_radix(&mut out, offset, 20, 10);
    assert(out@ =~= spec_interval_join_side_key(join_id@, side@, key@, partition, offset));
    out
}

pub open spec fn spec_interval_join_output_prefix(join_id: Seq<char>) -> Seq<char> {
    "interval-join-output/"@ + encoded_text(join_id) + "/"@
}

/// Emitted pairs of an interval join.
pub fn interval_join_output_prefix(join_id: &str) -> (out: String)
    ensures
        out@ == spec_interval_join_output_prefix(join_id@),
{
    let mut out = String::new();
    out.append("interval-join-output/");
    push_encoded(&mut out, join_id);
    out.append("/");
    assert(out@ =~= spec_interval_join_output_prefix(join_id@));
    out
}

pub open spec fn spec_deduplicate_key(operator_id: Seq<char>) -> Seq<char> {
    "deduplicate/"@ + encoded_text(operator_id)
}

/// A deduplicate operator.
pub fn deduplicate_key(operator_id: &str) -> (out: String)
    ensures
        out@ == spec_deduplicate_key(operator_id@),
{
    let mut out = String::new();
    out.append("deduplicate/");
    push_encoded(&mut out, operator_id);
    assert(out@ =~= spec_deduplicate_key(operator_id@));
    out
}

pub open spec fn spec_deduplicate_buffer_prefix(operator_id: Seq<char>) -> Seq<char> {
    "deduplicate-buffer/"@ + encoded_text(operator_id) + "/"@
}

/// Records buffered by a deduplicate operator.
pub fn deduplicate_buffer_prefix(operator_id: &str) -> (out: String)
    ensures
        out@ == spec_deduplicate_buffer_prefix(operator_id@),
{
    let mut out = String::new();
    out.append("deduplicate-buffer/");
    push_encoded(&mut out, operator_id);
    out.append("/");
    assert(out@ =~= spec_deduplicate_buffer_prefix(operator_id@));
    out
}

pub open spec fn spec_deduplicate_buffer_key(operator_id: Seq<char>, partition: u32, offset: u64) -> Seq<char> {
    spec_deduplicate_buffer_prefix(operator_id) + radix_text(partition as nat, 10, 10) + "/"@ + radix_text(offset as nat, 20, 10)
}

/// One buffered record.
pub fn deduplicate_buffer_key(operator_id: &str, partition: u32, offset: u64) -> (out: String)
    ensures
        out@ == spec_deduplicate_buffer_key(operator_id@, partition, offset),
{
    let mut out = String::new();
    let prefix = deduplicate_buffer_prefix(operator_id);
    out.append(prefix.as_str());
    push_radix(&mut out, partition as u64, 10, 10);
    out.append("/");
    push_radix(&mut out, offset, 20, 10);
    assert(out@ =~= spec_deduplicate_buffer_key(operator_id@, partition, offset));
    out
}

pub open spec fn spec_deduplicate_state_prefix(operator_id: Seq<char>) -> Seq<char> {
    "deduplicate-state/"@ + encoded_text(operator_id) + "/"@
}

/// The canonical records of a deduplicate operator.
pub fn deduplicate_state_prefix(operator_id: &str) -> (out: String)
    ensures
        out@ == spec_deduplicate_state_prefix(operator_id@),
{
    let mut out = String::new();
    out.append("deduplicate-state/");
    push_encoded(&mut out, operator_id);
    out.append("/");
    assert(out@ =~= spec_deduplicate_state_prefix(operator_id@));
    out
}

pub open spec fn spec_deduplicate_state_key(operator_id: Seq<char>, key: Seq<char>) -> Seq<char> {
    spec_deduplicate_state_prefix(operator_id) + encoded_text(key)
}

/// The canonical record of one key.
pub fn deduplicate_state_key(operator_id: &str, key: &str) -> (out: String)
    ensures
        out@ == spec_deduplicate_state_key(operator_id@, key@),
{
    let mut out = String::new();
    let prefix = deduplicate_state_prefix(operator_id);
    out.append(prefix.as_str());
    push_encoded(&mut out, key);
    assert(out@ =~= spec_deduplicate_state_key(operator_id@, key@));
    out
}

pub open spec fn spec_deduplicate_output_prefix(operator_id: Seq<char>) -> Seq<char> {
    "deduplicate-output/"@ + encoded_text(operator_id) + "/"@
}

/// Outputs of a deduplicate operator.
pub fn deduplicate_output_prefix(operator_id: &str) -> (out: String)
    ensures
        out@ == spec_deduplicate_output_prefix(operator_id@),
{
    let mut out = String::new();
    out.append("deduplicate-output/");
    push_encoded(&mut out, operator_id);
    out.append("/");
    assert(out@ =~= spec_deduplicate_output_prefix(operator_id@));
    out
}

pub open spec fn spec_deduplicate_output_key(operator_id: Seq<char>, partition: u32, offset: u64) -> Seq<char> {
    spec_deduplicate_output_prefix(operator_id) + radix_text(partition as nat, 10, 10) + "/"@ + radix_text(offset as nat, 20, 10)
}

/// The output for one record.
pub fn deduplicate_output_key(operator_id: &str, partition: u32, offset: u64) -> (out: String)
    ensures
        out@ == spec_deduplicate_output_key(operator_id@, partition, offset),
{
    let mut out = String::new();
    let prefix = deduplicate_output_prefix(operator_id);
    out.append(prefix.as_str());
    push_radix(&mut out, partition as u64, 10, 10);
    out.append("/");
    push_radix(&mut out, offset, 20, 10);
    assert(out@ =~= spec_deduplicate_output_key(operator_id@, partition, offset));
    out
}

pub open spec fn spec_stream_filter_key(operator_id: Seq<char>) -> Seq<char> {
    "stream-filter/"@ + encoded_text(operator_id)
}

/// A stream filter.
pub fn stream_filter_key(operator_id: &str) -> (out: String)
    ensures
        out@ == spec_stream_filter_key(operator_id@),
{
    let mut out = String::new();
    out.append("stream-filter/");
    push_encoded(&mut out, operator_id);
    assert(out@ =~= spec_stream_filter_key(operator_id@));
    out
}

pub open spec fn spec_stream_filter_output_prefix(operator_id: Seq<char>) -> Seq<char> {
    "stream-filter-output/"@ + encoded_text(operator_id) + "/"@
}

/// Outputs of a stream filter.
pub fn stream_filter_output_prefix(operator_id: &str) -> (out: String)
    ensures
        out@ == spec_stream_filter_output_prefix(operator_id@),
{
    let mut out = String::new();
    out.append("stream-filter-output/");
    push_encoded(&mut out, operator_id);
    out.append("/");
    assert(out@ =~= spec_stream_filter_output_prefix(operator_id@));
    out
}

pub open spec fn spec_stream_filter_output_key(operator_id: Seq<char>, partition: u32, offset: u64) -> Seq<char> {
    spec_stream_filter_output_prefix(operator_id) + radix_text(partition as nat, 10, 10) + "/"@ + radix_text(offset as nat, 20, 10)
}

/// The output for one record.
pub fn stream_filter_output_key(operator_id: &str, partition: u32, offset: u64) -> (out: String)
    ensures
        out@ == spec_stream_filter_output_key(operator_id@, partition, offset),
{
    let mut out = String::new();
    let prefix = stream_filter_output_prefix(operator_id);
    out.append(prefix.as_str());
    push_radix(&mut out, partition as u64, 10, 10);
    out.append("/");
    push_radix(&mut out, offset, 20, 10);
    assert(out@ =~= spec_stream_filter_output_key(operator_id@, partition, offset));
    out
}

pub open spec fn spec_key_group_key(key_group: u32) -> Seq<char> {
    "key-group/"@ + radix_text(key_group as nat, 10, 10)
}

/// The lease of a key group.
pub fn key_group_key(key_group: u32) -> (out: String)
    ensures
        out@ == spec_key_group_key(key_group),
{
    let mut out = String::new();
    out.append("key-group/");
    push_radix(&mut out, key_group as u64, 10, 10);
    assert(out@ =~= spec_key_group_key(key_group));
    out
}

pub open spec fn spec_source_cursor_key(stream: Seq<char>, source_id: Seq<char>, partition: u32) -> Seq<char> {
    "source-cursor/"@ + encoded_text(stream) + "/"@ + encoded_text(source_id) + "/"@ + radix_text(partition as nat, 10, 10)
}

/// The next offset of a source partition.
pub fn source_cursor_key(stream: &str, source_id: &str, partition: u32) -> (out: String)
    ensures
        out@ == spec_source_cursor_key(stream@, source_id@, partition),
{
    let mut out = String::new();
    out.append("source-cursor/");
    push_encoded(&mut out, stream);
    out.append("/");
    push_encoded(&mut out, source_id);
    out.append("/");
    push_radix(&mut out, partition as u64, 10, 10);
    assert(out@ =~= spec_source_cursor_key(stream@, source_id@, partition));
    out
}

pub open spec fn spec_source_lease_key(stream: Seq<char>, partition: u32) -> Seq<char> {
    "source-lease/"@ + encoded_text(stream) + "/"@ + radix_text(partition as nat, 10, 10)
}

/// The lease of a source partition.
pub fn source_lease_key(stream: &str, partition: u32) -> (out: String)
    ensures
        out@ == spec_source_lease_key(stream@, partition),
{
    let mut out = String::new();
    out.append("source-lease/");
    push_encoded(&mut out, stream);
    out.append("/");
    push_radix(&mut out, partition as u64, 10, 10);
    assert(out@ =~= spec_source_lease_key(stream@, partition));
    out
}

pub open spec fn spec_outbox_prefix(sink: Seq<char>) -> Seq<char> {
    "outbox/"@ + encoded_text(sink) + "/"@
}

/// The outbox of a sink.
pub fn outbox_prefix(sink: &str) -> (out: String)
    ensures
        out@ == spec_outbox_prefix(sink@),
{
    let mut out = String::new();
    out.append("outbox/");
    push_encoded(&mut out, sink);
    out.append("/");
    assert(out@ =~= spec_outbox_prefix(sink@));
    out
}

pub open spec fn spec_outbox_key(sink: Seq<char>, message_id: Seq<char>) -> Seq<char> {
    spec_outbox_prefix(sink) + encoded_text(message_id)
}

/// One outbox message.
pub fn outbox_key(sink: &str, message_id: &str) -> (out: String)
    ensures
        out@ == spec_outbox_key(sink@, message_id@),
{
    let mut out = String::new();
    let prefix = outbox_prefix(sink);
    out.append(prefix.as_str());
    push_encoded(&mut out, message_id);
    assert(out@ =~= spec_outbox_key(sink@, message_id@));
    out
}

/// The 64-bit FNV-1a hash of a byte string.
pub open spec fn fnv1a(bytes: Seq<u8>) -> u64
    decreases bytes.len(),
{
    if bytes.len() == 0 {
        0xcbf2_9ce4_8422_2325u64
    } else {
        (((fnv1a(bytes.drop_last()) ^ (bytes.last() as u64)) as nat * 0x100_0000_01b3nat)
            % 0x1_0000_0000_0000_0000nat) as u64
    }
}

pub open spec fn key_bytes(key: Option<Seq<char>>) -> Seq<u8> {
    match key {
        Some(k) => encode_utf8(k),
        None => Seq::empty(),
    }
}

pub open spec fn spec_key_group_for(key: Option<Seq<char>>, count: u32) -> u32 {
    (fnv1a(key_bytes(key)) % (count as u64)) as u32
}

/// The key group of a record key: its FNV-1a hash modulo the number of groups. A record
/// without a key hashes as the empty string.
pub fn key_group_for(key: Option<&str>, _partition: u32, count: u32) -> (group: u32)
    requires
        count > 0,
    ensures
        group == spec_key_group_for(option_view(key), count),
        group < count,
{
    let mut hash: u64 = 0xcbf2_9ce4_8422_2325u64;
    let ghost bytes = key_bytes(option_view(key));
    if let Some(name) = key {
        let data = name.as_bytes();
        let mut i: usize = 0;
        while i < data.len()
            invariant
                i <= data@.len(),
                data@ == bytes,
                hash == fnv1a(bytes.subrange(0, i as int)),
            decreases data.len() - i,
        {
            proof {
                let next = bytes.subrange(0, i + 1);
                assert(next.drop_last() =~= bytes.subrange(0, i as int));
                assert(next.last() == bytes[i as int]);
            }
            hash = hash ^ (data[i] as u64);
            hash = hash.wrapping_mul(0x100_0000_01b3u64);
            i = i + 1;
        }
        assert(bytes.subrange(0, data@.len() as int) =~= bytes);
    } else {
        assert(bytes =~= Seq::<u8>::empty());
    }
    (hash % (count as u64)) as u32
}

/// Every character of `t` is in the URL-safe alphabet, as every encoded component's is.
pub open spec fn is_key_component(t: Seq<char>) -> bool {
    forall|i: int| 0 <= i < t.len() ==> is_url_safe_char(#[trigger] t[i])
}

/// A `/`-terminated component prefix selects only keys whose component is the same: scanning
/// one identifier's prefix never reaches another identifier's keys.
pub proof fn law_component_prefix_is_selective(
    lit: Seq<char>,
    x: Seq<char>,
    y: Seq<char>,
    rest: Seq<char>,
)
    requires
        is_key_component(x),
        is_key_component(y),
        (lit + x + "/"@).is_prefix_of(lit + y + "/"@ + rest),
    ensures
        x == y,
{
    reveal_strlit("/");
    let p = lit + x + "/"@;
    let k = lit + y + "/"@ + rest;
    assert(p.len() <= k.len());
    assert(forall|i: int| 0 <= i < p.len() ==> p[i] == #[trigger] k[i]);
    if x.len() < y.len() {
        let i = (lit.len() + x.len()) as int;
        assert(p[i] == '/');
        assert(k[i] == y[x.len() as int]);
        assert(is_url_safe_char(y[x.len() as int]));
    } else if x.len() > y.len() {
        let i = (lit.len() + y.len()) as int;
        assert(k[i] == '/');
        assert(p[i] == x[y.len() as int]);
        assert(is_url_safe_char(x[y.len() as int]));
    } else {
        assert forall|i: int| 0 <= i < x.len() implies x[i] == y[i] by {
            assert(p[lit.len() + i] == x[i]);
            assert(k[lit.len() + i] == y[i]);
        }
        assert(x =~= y);
    }
}

proof fn lemma_decimal_widths()
    ensures
        radix_pow(10, 10) == 10_000_000_000,
        radix_pow(10, 20) == 100_000_000_000_000_000_000,
{
    reveal_with_fuel(radix_pow, 21);
}

/// A process mailbox is scanned in input-sequence order: the key of an earlier sequence sorts
/// first.
pub proof fn law_mailbox_keys_follow_sequence(process_id: Seq<char>, first: u64, second: u64)
    requires
        first < second,
    ensures
        text_lt(
            spec_process_mailbox_key(process_id, first),
            spec_process_mailbox_key(process_id, second),
        ),
        text_lt(
            spec_process_shard_mailbox_key(process_id, 0, first),
            spec_process_shard_mailbox_key(process_id, 0, second),
        ) ,
{
    lemma_decimal_widths();
    lemma_radix_order(first as nat, second as nat, 20, 10);
    lemma_text_lt_common_prefix(
        spec_process_mailbox_prefix(process_id),
        radix_text(first as nat, 20, 10),
        radix_text(second as nat, 20, 10),
    );
    lemma_text_lt_common_prefix(
        spec_process_shard_mailbox_prefix(process_id, 0),
        radix_text(first as nat, 20, 10),
        radix_text(second as nat, 20, 10),
    );
}

/// Every shard mailbox is scanned in input-sequence order.
pub proof fn law_shard_mailbox_keys_follow_sequence(
    process_id: Seq<char>,
    shard: usize,
    first: u64,
    second: u64,
)
    requires
        first < second,
    ensures
        text_lt(
            spec_process_shard_mailbox_key(process_id, shard, first),
            spec_process_shard_mailbox_key(process_id, shard, second),
        ),
{
    lemma_decimal_widths();
    lemma_radix_order(first as nat, second as nat, 20, 10);
    lemma_text_lt_common_prefix(
        spec_process_shard_mailbox_prefix(process_id, shard),
        radix_text(first as nat, 20, 10),
        radix_text(second as nat, 20, 10),
    );
}

/// Stream records are scanned by partition and then by offset within the partition.
pub proof fn law_stream_record_keys_follow_position(
    stream: Seq<char>,
    partition: u32,
    offset: u64,
    next_partition: u32,
    next_offset: u64,
)
    requires
        partition < next_partition || (partition == next_partition && offset < next_offset),
    ensures
        text_lt(
            spec_stream_record_key(stream, partition, offset),
            spec_stream_record_key(stream, next_partition, next_offset),
        ),
{
    reveal_strlit("/");
    lemma_decimal_widths();
    let prefix = spec_stream_record_prefix(stream);
    let a = radix_text(partition as nat, 10, 10);
    let b = radix_text(next_partition as nat, 10, 10);
    let x = radix_text(offset as nat, 20, 10);
    let y = radix_text(next_offset as nat, 20, 10);
    assert(spec_stream_record_key(stream, partition, offset) =~= prefix + (a + ("/"@ + x)));
    assert(spec_stream_record_key(stream, next_partition, next_offset) =~= prefix + (b + ("/"@
        + y)));
    if partition < next_partition {
        lemma_radix_order(partition as nat, next_partition as nat, 10, 10);
        lemma_radix_len(partition as nat, 10, 10);
        lemma_radix_len(next_partition as nat, 10, 10);
        lemma_text_lt_extend(a, b, "/"@ + x, "/"@ + y);
    } else {
        lemma_radix_order(offset as nat, next_offset as nat, 20, 10);
        lemma_text_lt_common_prefix(a + "/"@, x, y);
        assert(a + "/"@ + x =~= a + ("/"@ + x));
        assert(a + "/"@ + y =~= a + ("/"@ + y));
    }
    lemma_text_lt_common_prefix(prefix, a + ("/"@ + x), b + ("/"@ + y));
}

} // verus!
