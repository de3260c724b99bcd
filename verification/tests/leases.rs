use highwater::leases::{
    assign_key_group, begin_partition_transfer, check_partition_owner, claim_source_partition,
    complete_partition_transfer, next_process_partition_activation, owned_key_group_epoch,
    owned_process_partition_epoch, start_key_group, take_over_partition, FenceError,
    KeyGroupLease, KeyGroupStart, PartitionStatus, SourceClaimError, SourceLease,
};

#[test]
fn process_partition_epoch_fences_the_previous_runtime() {
    let mut owner = take_over_partition(None, 1, "test:first");
    let first = next_process_partition_activation(&mut owner, "test:first", false).unwrap();

    let old_runtime = "test:first";
    let mut owner = take_over_partition(Some(&owner), 1, "test:second");
    assert!(owned_process_partition_epoch(Some(&owner), old_runtime, false).is_err());
    let second = next_process_partition_activation(&mut owner, "test:second", false).unwrap();

    let (first_epoch, first_activation) = first;
    let (second_epoch, second_activation) = second;
    assert!(second_epoch > first_epoch);
    assert!(second_activation > first_activation);
}

#[test]
fn expired_or_missing_partition_owners_fence_work() {
    let mut owner = take_over_partition(None, 2, "node");
    assert_eq!(owned_process_partition_epoch(None, "node", false), Err(FenceError::Unassigned));
    assert_eq!(owned_process_partition_epoch(Some(&owner), "node", false), Ok(1));
    assert_eq!(
        owned_process_partition_epoch(Some(&owner), "node", true),
        Err(FenceError::Fenced(1))
    );
    assert_eq!(
        next_process_partition_activation(&mut owner, "node", true),
        Err(FenceError::Fenced(1))
    );
    assert_eq!(next_process_partition_activation(&mut owner, "node", false), Ok((1, 1)));
    assert_eq!(next_process_partition_activation(&mut owner, "node", false), Ok((1, 2)));
}

fn lease(owner: &str, epoch: u64) -> KeyGroupLease {
    KeyGroupLease { key_group: 7, owner: owner.to_owned(), epoch }
}

#[test]
fn key_group_work_is_stamped_only_by_its_live_owner() {
    assert_eq!(owned_key_group_epoch(None, "a", false), Err(FenceError::Unassigned));
    assert_eq!(owned_key_group_epoch(Some(&lease("a", 3)), "a", false), Ok(3));
    assert_eq!(owned_key_group_epoch(Some(&lease("a", 3)), "a", true), Err(FenceError::Fenced(3)));
    assert_eq!(owned_key_group_epoch(Some(&lease("a", 3)), "b", false), Err(FenceError::Fenced(3)));
}

#[test]
fn starting_nodes_claim_vacant_or_expired_key_groups() {
    match start_key_group(None, 7, "a", false) {
        KeyGroupStart::Claim(l) => assert_eq!((l.key_group, l.owner.as_str(), l.epoch), (7, "a", 1)),
        _ => panic!("a vacant group is claimed"),
    }
    assert!(matches!(start_key_group(Some(&lease("a", 4)), 7, "a", true), KeyGroupStart::Renew));
    assert!(matches!(start_key_group(Some(&lease("b", 4)), 7, "a", false), KeyGroupStart::Leave));
    match start_key_group(Some(&lease("b", 4)), 7, "a", true) {
        KeyGroupStart::Claim(l) => assert_eq!((l.owner.as_str(), l.epoch), ("a", 5)),
        _ => panic!("an expired group is claimed"),
    }
}

#[test]
fn key_group_assignment_checks_the_expected_epoch() {
    match assign_key_group(&lease("a", 4), 4, "b") {
        Ok(l) => assert_eq!((l.key_group, l.owner.as_str(), l.epoch), (7, "b", 5)),
        Err(e) => panic!("unexpected {e:?}"),
    }
    assert!(matches!(assign_key_group(&lease("a", 4), 3, "b"), Err(FenceError::Changed(4))));
}

#[test]
fn partitions_move_by_draining_then_restoring_at_the_next_generation() {
    let owner = take_over_partition(None, 3, "node-a:1");
    assert_eq!(check_partition_owner(&owner, "node-a:1"), Ok(()));
    assert_eq!(check_partition_owner(&owner, "node-b:1"), Err(FenceError::Fenced(1)));
    assert_eq!(begin_partition_transfer(&owner, "node-a:1", 1), Ok(PartitionStatus::Draining));
    assert_eq!(begin_partition_transfer(&owner, "node-a:1", 2), Err(FenceError::Changed(1)));
    assert!(matches!(
        complete_partition_transfer(&owner, "node-a:1", 1, "node-b"),
        Err(FenceError::Changed(1))
    ));
    let mut draining = take_over_partition(None, 3, "node-a:1");
    draining.status = PartitionStatus::Draining;
    draining.next_activation_sequence = 9;
    match complete_partition_transfer(&draining, "node-a:1", 1, "node-b") {
        Ok(next) => {
            assert_eq!(next.owner, "node-b:pending");
            assert_eq!((next.partition_id, next.epoch, next.next_activation_sequence), (3, 2, 9));
            assert_eq!(next.status, PartitionStatus::Restoring);
        }
        Err(e) => panic!("unexpected {e:?}"),
    }
}

#[test]
fn sources_claim_renew_and_fence_their_partitions() {
    let held = SourceLease { source_id: "s1".to_owned(), epoch: 2 };
    assert!(matches!(
        claim_source_partition(&held, "s2", None, false),
        Err(SourceClaimError::OwnedByOther(2))
    ));
    match claim_source_partition(&held, "s2", None, true) {
        Ok(l) => assert_eq!((l.source_id.as_str(), l.epoch), ("s2", 3)),
        Err(e) => panic!("unexpected {e:?}"),
    }
    match claim_source_partition(&held, "s1", None, false) {
        Ok(l) => assert_eq!((l.source_id.as_str(), l.epoch), ("s1", 2)),
        Err(e) => panic!("unexpected {e:?}"),
    }
    match claim_source_partition(&held, "s1", Some(2), false) {
        Ok(l) => assert_eq!(l.epoch, 2),
        Err(e) => panic!("unexpected {e:?}"),
    }
    assert!(matches!(claim_source_partition(&held, "s1", Some(1), false), Err(SourceClaimError::Fenced)));
    assert!(matches!(claim_source_partition(&held, "s1", Some(2), true), Err(SourceClaimError::Fenced)));
}
