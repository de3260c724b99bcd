use highwater::keyspace::key_group_for;
use highwater::state::{
    authorize_poll, process_shard, retry_output_commit, AuthorizationError, ExecutionIdentity,
};

fn identity(token: &str, queue: &str, builds: &[&str]) -> ExecutionIdentity {
    ExecutionIdentity {
        token: token.to_owned(),
        task_queue: queue.to_owned(),
        build_ids: builds.iter().map(|b| b.to_string()).collect(),
    }
}

#[test]
fn polls_are_open_without_configured_identities() {
    assert_eq!(authorize_poll(&vec![], None, None, &vec![]), Ok(()));
}

#[test]
fn polls_need_an_identity_covering_queue_and_builds() {
    let identities = vec![identity("t1", "orders", &["v1", "v2"]), identity("t2", "billing", &[])];
    let builds = vec!["v2".to_owned()];
    assert_eq!(
        authorize_poll(&identities, None, Some("orders"), &builds),
        Err(AuthorizationError::IdentityRequired)
    );
    assert_eq!(
        authorize_poll(&identities, Some("nope"), Some("orders"), &builds),
        Err(AuthorizationError::InvalidIdentity)
    );
    assert_eq!(authorize_poll(&identities, Some("t1"), Some("orders"), &builds), Ok(()));
    assert_eq!(
        authorize_poll(&identities, Some("t1"), Some("billing"), &builds),
        Err(AuthorizationError::NotAuthorized)
    );
    assert_eq!(
        authorize_poll(&identities, Some("t1"), None, &builds),
        Err(AuthorizationError::NotAuthorized)
    );
    assert_eq!(
        authorize_poll(&identities, Some("t1"), Some("orders"), &vec!["v3".to_owned()]),
        Err(AuthorizationError::NotAuthorized)
    );
    assert_eq!(authorize_poll(&identities, Some("t2"), Some("billing"), &vec![]), Ok(()));
}

#[test]
fn process_keys_route_to_data_shards_after_shard_zero() {
    assert_eq!(process_shard("k", 0), 0);
    assert_eq!(process_shard("k", 1), 0);
    for key in ["a", "order-17", ""] {
        let shard = process_shard(key, 5);
        assert_eq!(shard, 1 + key_group_for(Some(key), 0, 4) as usize);
        assert!((1..5).contains(&shard));
    }
}

#[test]
fn fenced_output_commits_retry_up_to_eight_attempts() {
    assert!(retry_output_commit(0, true));
    assert!(retry_output_commit(6, true));
    assert!(!retry_output_commit(7, true));
    assert!(!retry_output_commit(0, false));
}
