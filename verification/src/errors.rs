//! How a failed request is answered: retryable failures, back-pressure and bad requests.
use crate::text::str_eq;
use vstd::prelude::*;

verus! {

/// Whether `pattern` occurs in `text`.
pub open spec fn contains_text(text: Seq<char>, pattern: Seq<char>) -> bool {
    exists|i: int|
        0 <= i && i + pattern.len() <= text.len() && #[trigger] text.subrange(
            i,
            i + pattern.len(),
        ) == pattern
}

/// `str::contains` with a text pattern.
pub fn text_contains(text: &str, pattern: &str) -> (found: bool)
    ensures
        found == contains_text(text@, pattern@),
{
    let n = text.unicode_len();
    let m = pattern.unicode_len();
    if m > n {
        return false;
    }
    if m == 0 {
        assert(text@.subrange(0, 0 + pattern@.len() as int) =~= pattern@);
        return true;
    }
    let mut i: usize = 0;
    while i <= n - m
        invariant
            n == text@.len(),
            m == pattern@.len(),
            1 <= m <= n,
            i <= n - m + 1,
            forall|k: int| 0 <= k < i ==> #[trigger] text@.subrange(k, k + m) != pattern@,
        decreases n - m + 1 - i,
    {
        if str_eq(text.substring_char(i, i + m), pattern) {
            return true;
        }
        i = i + 1;
    }
    false
}

/// Whether `text` begins with `prefix`.
pub open spec fn starts_with_text(text: Seq<char>, prefix: Seq<char>) -> bool {
    prefix.len() <= text.len() && text.subrange(0, prefix.len() as int) == prefix
}

/// `str::starts_with` with a text prefix.
pub fn text_starts_with(text: &str, prefix: &str) -> (found: bool)
    ensures
        found == starts_with_text(text@, prefix@),
{
    let n = text.unicode_len();
    let m = prefix.unicode_len();
    if m > n {
        return false;
    }
    str_eq(text.substring_char(0, m), prefix)
}

/// A failure the caller should retry: storage was unreachable, or another owner fenced
/// this one's write or partition.
pub open spec fn is_retryable_failure(storage_failure: bool, message: Seq<char>) -> bool {
    storage_failure || contains_text(message, "conditional append was fenced"@) || (
    starts_with_text(message, "process partition "@) && contains_text(
        message,
        " is fenced at epoch "@,
    ))
}

/// The HTTP status of a failed request. `storage_failure` says that the object store
/// failed somewhere along the error's causes, `throttled` that a watermark-alignment or
/// capacity limit refused it, and `message` is the error's full text.
pub open spec fn spec_error_status(storage_failure: bool, throttled: bool, message: Seq<char>) -> u16 {
    if is_retryable_failure(storage_failure, message) {
        503
    } else if throttled {
        429
    } else {
        400
    }
}

pub fn error_status(storage_failure: bool, throttled: bool, message: &str) -> (status: u16)
    ensures
        status == spec_error_status(storage_failure, throttled, message@),
{
    if storage_failure || text_contains(message, "conditional append was fenced") || (
    text_starts_with(message, "process partition ") && text_contains(
        message,
        " is fenced at epoch ",
    )) {
        503
    } else if throttled {
        429
    } else {
        400
    }
}

} // verus!
