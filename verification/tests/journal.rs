use highwater::journal::checkpoint_files;
use highwater::text::text_less;
use highwater::journal::recover_chain;
use highwater::journal::{
    append_was_committed, check_checkpoint_content, check_checkpoint_entry, check_digest,
    check_head, check_record, check_recovered_epochs, checkpoint_regression, next_head,
    plan_append, JournalError, RecordHeader, JOURNAL_FORMAT,
};

#[test]
fn appends_continue_the_head_they_expect() {
    assert_eq!(plan_append(0, None, 1), Ok(1));
    assert_eq!(plan_append(0, None, 0), Err(JournalError::NonPositiveEpoch));
    let head = next_head(0, 3, 7, "records/7".to_owned());
    assert_eq!(plan_append(0, Some(&head), 3), Ok(8));
    assert_eq!(plan_append(0, Some(&head), 4), Ok(8));
    assert_eq!(plan_append(0, Some(&head), 5), Err(JournalError::EpochSkip));
    assert_eq!(plan_append(0, Some(&head), 2), Err(JournalError::EpochSkip));
    assert_eq!(plan_append(1, Some(&head), 3), Err(JournalError::ForeignCursor));
}

#[test]
fn ambiguous_appends_are_resolved_by_the_head_read_back() {
    let written = next_head(0, 3, 8, "records/8".to_owned());
    let same = next_head(0, 3, 8, "records/8".to_owned());
    let other = next_head(0, 4, 8, "records/8b".to_owned());
    assert!(append_was_committed(&written, Some(&same)));
    assert!(!append_was_committed(&written, Some(&other)));
    assert!(!append_was_committed(&written, None));
}

#[test]
fn recovery_trusts_only_consistent_heads_and_records() {
    assert_eq!(check_head(&next_head(2, 1, 1, String::new()), 2), Ok(()));
    assert_eq!(check_head(&next_head(2, 1, 0, String::new()), 2), Err(JournalError::InvalidHead));
    assert_eq!(check_head(&next_head(1, 1, 1, String::new()), 2), Err(JournalError::InvalidHead));
    let record = RecordHeader { format: JOURNAL_FORMAT, partition: 2, owner_epoch: 1, position: 5 };
    assert_eq!(check_record(&record, 2, 5), Ok(()));
    assert_eq!(check_record(&record, 2, 6), Err(JournalError::InvalidRecord));
    assert_eq!(check_recovered_epochs(&[1, 1, 2, 3, 3]), Ok(()));
    assert_eq!(check_recovered_epochs(&[1, 3]), Err(JournalError::NonMonotonicEpoch));
    assert_eq!(check_recovered_epochs(&[2, 1]), Err(JournalError::NonMonotonicEpoch));
    assert_eq!(check_recovered_epochs(&[]), Ok(()));
}

#[test]
fn checkpoints_never_lose_partition_progress() {
    assert_eq!(checkpoint_regression(&vec![(0, 5), (1, 2)], &vec![(1, 2), (0, 6)]), None);
    assert_eq!(checkpoint_regression(&vec![(0, 5), (1, 2)], &vec![(0, 4), (1, 1)]), Some(0));
    assert_eq!(checkpoint_regression(&vec![(0, 5), (1, 2)], &vec![(0, 5)]), Some(1));
}

#[test]
fn checkpoint_files_are_checked_by_path_and_content() {
    let digest = "2cf24dba5fb0a30e26e83b2ac5b9e29e1b161e5c1fa7425e73043362938b9824";
    assert_eq!(check_digest(digest), Ok(()));
    assert_eq!(check_digest("abc"), Err(JournalError::InvalidDigest));
    assert_eq!(check_checkpoint_entry("db/CURRENT", digest), Ok(()));
    assert_eq!(check_checkpoint_entry("/etc/passwd", digest), Err(JournalError::UnsafePath));
    assert_eq!(check_checkpoint_entry("a/../../b", digest), Err(JournalError::UnsafePath));
    assert_eq!(check_checkpoint_entry("a/b", "xyz"), Err(JournalError::InvalidDigest));
    assert_eq!(check_checkpoint_content(digest, 5, b"hello"), Ok(()));
    assert_eq!(check_checkpoint_content(digest, 5, b"hellO"), Err(JournalError::CorruptContent));
    assert_eq!(check_checkpoint_content(digest, 4, b"hello"), Err(JournalError::CorruptContent));
}

fn header(partition: u32, owner_epoch: u64, position: u64) -> RecordHeader {
    RecordHeader { format: 1, partition, owner_epoch, position }
}

#[test]
fn recovery_returns_the_records_after_a_position_oldest_first() {
    let walked = vec![header(5, 2, 4), header(5, 2, 3), header(5, 1, 2), header(5, 1, 1)];
    let records = recover_chain(5, 4, 1, &walked).unwrap();
    assert_eq!(records, vec![header(5, 1, 2), header(5, 2, 3), header(5, 2, 4)]);
    assert_eq!(recover_chain(5, 4, 4, &walked), Ok(vec![]));
    assert_eq!(recover_chain(5, 0, 0, &[]), Ok(vec![]));
}

#[test]
fn recovery_fails_closed_on_missing_corrupt_or_skipping_records() {
    // The record at position 3 could not be read, so the walk stopped there.
    let missing = vec![header(5, 1, 4)];
    assert_eq!(recover_chain(5, 4, 0, &missing), Err(JournalError::ChainEnded));
    let misnumbered = vec![header(5, 1, 4), header(5, 1, 2)];
    assert_eq!(recover_chain(5, 4, 2, &misnumbered), Err(JournalError::InvalidRecord));
    let foreign = vec![header(6, 1, 4)];
    assert_eq!(recover_chain(5, 4, 3, &foreign), Err(JournalError::InvalidRecord));
    let skipping = vec![header(5, 3, 2), header(5, 1, 1)];
    assert_eq!(recover_chain(5, 2, 0, &skipping), Err(JournalError::NonMonotonicEpoch));
}

#[test]
fn checkpoint_files_are_listed_by_path_with_digest_and_size() {
    let entries = vec![
        ("sst/000002.sst".to_owned(), b"abc".to_vec()),
        ("CURRENT".to_owned(), Vec::new()),
        ("MANIFEST-000001".to_owned(), b"a".to_vec()),
    ];
    let files = checkpoint_files(&entries);
    let listed: Vec<(&str, &str, u64)> = files
        .iter()
        .map(|f| (f.path.as_str(), f.digest.as_str(), f.size))
        .collect();
    assert_eq!(
        listed,
        vec![
            ("CURRENT", "e3b0c44298fc1c149afbf4c8996fb92427ae41e4649b934ca495991b7852b855", 0),
            ("MANIFEST-000001", "ca978112ca1bbdcafac231b39a23dc4da786eff8147c4e72b9807785afee48bb", 1),
            ("sst/000002.sst", "ba7816bf8f01cfea414140de5dae2223b00361a396177a9cb410ff61f20015ad", 3),
        ]
    );
    assert!(checkpoint_files(&[]).is_empty());
}

#[test]
fn texts_are_ordered_by_code_point() {
    assert!(text_less("a", "b"));
    assert!(text_less("ab", "abc"));
    assert!(!text_less("abc", "ab"));
    assert!(!text_less("same", "same"));
    assert!(text_less("Z", "a"));
    assert!(text_less("é", "😀"));
    assert!(text_less("", "x"));
}
