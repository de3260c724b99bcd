use highwater::text::is_float_text;
use highwater::server::{
    api_token, check_execution_identities, check_remote_journal, check_server_arguments,
    cluster_token, owned_shards, parse_partition_list, parse_server_arguments, server_option,
    DeploymentError, ServerArgumentError, ServerOption,
};
use highwater::state::ExecutionIdentity;

fn words(values: &[&str]) -> Vec<String> {
    values.iter().map(|v| v.to_string()).collect()
}

#[test]
fn server_arguments_start_from_defaults() {
    let args = parse_server_arguments(Vec::new(), 5).unwrap();
    assert_eq!(args.listen, "127.0.0.1:7233");
    assert_eq!(args.state_dir, "highwater-rust-state");
    assert_eq!(args.object_dir, "highwater-rust-objects");
    assert_eq!(args.node_id, "local");
    assert!(args.control_plane);
    assert_eq!(args.key_groups, 128);
    assert_eq!(args.log_shards, 5);
    assert!(args.owned_partitions.is_none());
    let args = check_server_arguments(args, true).unwrap();
    assert_eq!(args.endpoint, "http://127.0.0.1:7233");
}

#[test]
fn server_arguments_read_every_option() {
    let args = parse_server_arguments(
        words(&[
            "--listen", "0.0.0.0:1", "--execution-listen", "0.0.0.0:2", "--state-dir", "s",
            "--object-store-dir", "o", "--journal", "s3://bucket/j", "--node-id", "n1",
            "--data-plane-only", "--execution-identity-file", "ids.json",
            "--cluster-token-file", "cluster", "--api-token-file", "api",
            "--process-partitions", "1,3", "--key-groups", "+64", "--lease-seconds", "2.5",
            "--log-shards", "4",
        ]),
        9,
    )
    .unwrap();
    assert_eq!(args.listen, "0.0.0.0:1");
    assert_eq!(args.execution_listen.as_deref(), Some("0.0.0.0:2"));
    assert_eq!(args.journal.as_deref(), Some("s3://bucket/j"));
    assert_eq!(args.node_id, "n1");
    assert!(!args.control_plane);
    assert_eq!(args.owned_partitions, Some(vec![1, 3]));
    assert_eq!(args.key_groups, 64);
    assert_eq!(args.lease_seconds.as_deref(), Some("2.5"));
    assert_eq!(args.log_shards, 4);
    let args = check_server_arguments(args, true).unwrap();
    assert_eq!(args.endpoint, "http://0.0.0.0:2");
}

#[test]
fn server_arguments_refuse_bad_words() {
    assert!(matches!(
        parse_server_arguments(words(&["--listen"]), 3),
        Err(ServerArgumentError::MissingValue(o)) if o == "--listen"
    ));
    assert!(matches!(
        parse_server_arguments(words(&["--verbose"]), 3),
        Err(ServerArgumentError::UnknownArgument(o)) if o == "--verbose"
    ));
    assert!(matches!(
        parse_server_arguments(words(&["--key-groups", "4294967296"]), 3),
        Err(ServerArgumentError::KeyGroupsNotInteger)
    ));
    assert!(matches!(
        parse_server_arguments(words(&["--log-shards", "-2"]), 3),
        Err(ServerArgumentError::LogShardsNotInteger)
    ));
    assert!(matches!(
        parse_server_arguments(words(&["--process-partitions", "1,,2"]), 3),
        Err(ServerArgumentError::InvalidProcessPartition)
    ));
}

#[test]
fn server_settings_are_checked_before_start() {
    let parsed = |w: &[&str]| parse_server_arguments(words(w), 4).unwrap();
    assert!(matches!(
        check_server_arguments(parsed(&["--node-id", " "]), true),
        Err(ServerArgumentError::InvalidSettings)
    ));
    assert!(matches!(
        check_server_arguments(parsed(&["--key-groups", "0"]), true),
        Err(ServerArgumentError::InvalidSettings)
    ));
    assert!(matches!(
        check_server_arguments(parsed(&[]), false),
        Err(ServerArgumentError::InvalidSettings)
    ));
    assert!(matches!(
        check_server_arguments(parsed(&["--log-shards", "257"]), true),
        Err(ServerArgumentError::InvalidSettings)
    ));
    assert!(matches!(
        check_server_arguments(parsed(&["--advertise-endpoint", "not a url"]), true),
        Err(ServerArgumentError::InvalidEndpoint)
    ));
    assert!(matches!(
        check_server_arguments(parsed(&["--process-partitions", "0"]), true),
        Err(ServerArgumentError::PartitionOutOfRange(3))
    ));
    assert!(matches!(
        check_server_arguments(parsed(&["--process-partitions", "4"]), true),
        Err(ServerArgumentError::PartitionOutOfRange(3))
    ));
    assert!(check_server_arguments(parsed(&["--process-partitions", "3,1"]), true).is_ok());
}

#[test]
fn options_are_recognized_by_exact_name() {
    assert_eq!(server_option("--log-shards"), Some(ServerOption::LogShards));
    assert_eq!(server_option("--log-shard"), None);
    assert_eq!(parse_partition_list("2,1"), Some(vec![2, 1]));
    assert_eq!(parse_partition_list(""), None);
}

#[test]
fn only_owned_shards_run_process_partitions() {
    assert_eq!(owned_shards(&None, 3), vec![false, true, true]);
    assert_eq!(owned_shards(&Some(vec![2]), 3), vec![false, false, true]);
    assert_eq!(owned_shards(&Some(vec![0]), 2), vec![false, false]);
}

fn identity(token: &str, queue: &str, builds: &[&str]) -> ExecutionIdentity {
    ExecutionIdentity {
        token: token.to_owned(),
        task_queue: queue.to_owned(),
        build_ids: builds.iter().map(|b| b.to_string()).collect(),
    }
}

#[test]
fn deployments_need_strong_distinct_tokens() {
    let long = "0123456789abcdef0123456789abcdef";
    let other = "fedcba9876543210fedcba9876543210";
    assert_eq!(cluster_token(false, None), Ok(None));
    assert_eq!(cluster_token(true, None), Err(DeploymentError::ClusterTokenTooShort));
    assert_eq!(
        cluster_token(true, Some("  short \n".to_owned())),
        Err(DeploymentError::ClusterTokenTooShort)
    );
    assert_eq!(
        cluster_token(true, Some(format!("{long}\n"))),
        Ok(Some(long.to_owned()))
    );
    assert_eq!(check_execution_identities(&[]), Ok(()));
    assert_eq!(
        check_execution_identities(&[identity(long, "q", &["b"]), identity(other, "q", &["b"])]),
        Ok(())
    );
    assert_eq!(
        check_execution_identities(&[identity(long, "q", &["b"]), identity(long, "r", &["c"])]),
        Err(DeploymentError::InvalidExecutionIdentities)
    );
    assert_eq!(
        check_execution_identities(&[identity(long, " ", &["b"])]),
        Err(DeploymentError::InvalidExecutionIdentities)
    );
    assert_eq!(
        check_execution_identities(&[identity(long, "q", &[])]),
        Err(DeploymentError::InvalidExecutionIdentities)
    );
    assert_eq!(
        check_remote_journal(true, false, 1),
        Err(DeploymentError::RemoteJournalNeedsExecutionListener)
    );
    assert_eq!(
        check_remote_journal(true, true, 0),
        Err(DeploymentError::RemoteJournalNeedsIdentities)
    );
    assert_eq!(check_remote_journal(false, false, 0), Ok(()));
    assert_eq!(api_token(None, false), Ok(None));
    assert_eq!(
        api_token(Some("short".to_owned()), true),
        Err(DeploymentError::ApiTokenTooShort)
    );
    assert_eq!(
        api_token(Some(long.to_owned()), false),
        Err(DeploymentError::ApiTokenNeedsExecutionListener)
    );
    assert_eq!(api_token(Some(format!(" {long} ")), true), Ok(Some(long.to_owned())));
}

#[test]
fn lease_seconds_are_refused_at_the_first_non_numeric_value() {
    let words = |list: &[&str]| list.iter().map(|w| w.to_string()).collect::<Vec<_>>();
    assert!(matches!(
        parse_server_arguments(words(&["--lease-seconds", "x", "--lease-seconds", "5"]), 4),
        Err(ServerArgumentError::LeaseSecondsNotNumeric)
    ));
    assert!(matches!(
        parse_server_arguments(words(&["--lease-seconds", "x", "--bogus"]), 4),
        Err(ServerArgumentError::LeaseSecondsNotNumeric)
    ));
    let ok = parse_server_arguments(words(&["--lease-seconds", "1e3"]), 4).unwrap();
    assert_eq!(ok.lease_seconds.as_deref(), Some("1e3"));
}

#[test]
fn float_texts_follow_the_documented_grammar() {
    for text in ["1", "-2.5", "+.5", "3.", "1e10", "2.5E-3", "inf", "-Infinity", "NaN", "007"] {
        assert!(is_float_text(text), "{text}");
        assert!(text.parse::<f64>().is_ok(), "{text}");
    }
    for text in ["", ".", "e5", "1e", "1e+", "--1", " 1", "1 ", "1.2.3", "infin", "0x10", "1_000"] {
        assert!(!is_float_text(text), "{text}");
        assert!(text.parse::<f64>().is_err(), "{text}");
    }
}
