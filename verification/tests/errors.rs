use highwater::errors::{error_status, text_contains, text_starts_with};

#[test]
fn shared_validation_error_stays_non_retryable() {
    assert_eq!(error_status(false, false, "invalid process transition"), 400);
}

#[test]
fn storage_errors_and_fencing_stay_retryable() {
    assert_eq!(error_status(true, false, "journal read failed"), 503);
    assert_eq!(
        error_status(false, true, "head update: conditional append was fenced"),
        503
    );
    assert_eq!(
        error_status(false, false, "process partition 3 is fenced at epoch 4 and owned by x"),
        503
    );
    assert_eq!(
        error_status(false, false, "shard 3 is fenced at epoch 4"),
        400
    );
}

#[test]
fn capacity_errors_ask_callers_to_slow_down() {
    assert_eq!(error_status(false, true, "process p shard 1 mailbox is full"), 429);
}

#[test]
fn text_search_finds_patterns_anywhere() {
    assert!(text_contains("abcabd", "abd"));
    assert!(!text_contains("abcab", "abd"));
    assert!(text_contains("abc", ""));
    assert!(!text_contains("", "a"));
    assert!(text_starts_with("process partition 1", "process partition "));
    assert!(!text_starts_with("process", "process partition "));
}

#[test]
fn storage_error_remains_retryable_through_shared_task_response() {
    // The object-store failure stays in the error's causes however often it is shared, so
    // both answers see a storage failure.
    let message = "journal read failed: Generic test error: partitioned";
    assert_eq!(error_status(true, false, message), 503);
    let shared = format!("{message}");
    assert_eq!(error_status(true, false, &shared), 503);
}
