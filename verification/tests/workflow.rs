use highwater::keyspace::archive_key;
use highwater::process::ProcessFailureDisposition;
use highwater::workflow::{
    accept_external_event, activity_event_type, close_workflow_tree, command_kinds, poll_order, CloseEffect, activity_max_attempts, activity_outcome,
    child_close_action, close_event_type, close_plan, command_close_status, command_event_type,
    command_kind, completion_batch_size_ok, completion_message_id, external_event_arrived,
    first_query, parent_event_type, record_workflow_task_failure, status_name, task_matches_poll,
    workflow_batch, ActivityOutcome, ChildCloseAction, CommandKind, ProcessLoad, TaskRoute,
    WorkflowStatus,
};

#[test]
fn commands_are_read_by_their_wire_names() {
    assert_eq!(command_kind("START_TIMER"), Some(CommandKind::StartTimer));
    assert_eq!(command_kind("CONTINUE_AS_NEW"), Some(CommandKind::ContinueAsNew));
    assert_eq!(command_kind("CANCEL_WORKFLOW"), Some(CommandKind::CancelWorkflow));
    assert_eq!(command_kind("start_timer"), None);
    assert_eq!(command_kind("SLEEP"), None);
}

#[test]
fn commands_record_their_history_events() {
    assert_eq!(command_event_type(CommandKind::CompleteUpdate), "UPDATE_COMPLETED");
    assert_eq!(command_event_type(CommandKind::RecordVersion), "VERSION_MARKER");
    assert_eq!(command_event_type(CommandKind::StartChild), "CHILD_WORKFLOW_SCHEDULED");
    assert_eq!(command_event_type(CommandKind::FailWorkflow), "WORKFLOW_FAILED");
    assert_eq!(command_close_status(CommandKind::CompleteWorkflow), Some(WorkflowStatus::Completed));
    assert_eq!(command_close_status(CommandKind::StartTimer), None);
}

#[test]
fn closing_names_the_status_and_notifies_a_running_parent() {
    assert_eq!(status_name(WorkflowStatus::TimedOut), "TIMED_OUT");
    assert_eq!(close_event_type(WorkflowStatus::Terminated), "WORKFLOW_TERMINATED");
    let plan = close_plan(WorkflowStatus::Completed, true);
    assert_eq!(plan.event_type, "WORKFLOW_COMPLETED");
    assert!(plan.publishes_result);
    assert_eq!(plan.parent_event, Some("CHILD_WORKFLOW_COMPLETED"));
    let plan = close_plan(WorkflowStatus::Cancelled, true);
    assert!(!plan.publishes_result);
    assert_eq!(plan.parent_event, Some("CHILD_WORKFLOW_FAILED"));
    assert_eq!(close_plan(WorkflowStatus::Failed, false).parent_event, None);
    assert_eq!(parent_event_type(WorkflowStatus::TimedOut), "CHILD_WORKFLOW_FAILED");
}

#[test]
fn children_follow_their_parent_close_policy() {
    assert_eq!(child_close_action(Some("REQUEST_CANCEL")), ChildCloseAction::RequestCancel);
    assert_eq!(child_close_action(Some("TERMINATE")), ChildCloseAction::Terminate);
    assert_eq!(child_close_action(Some("ABANDON")), ChildCloseAction::Abandon);
    assert_eq!(child_close_action(None), ChildCloseAction::Abandon);
}

#[test]
fn completed_runs_publish_under_their_run_number() {
    assert_eq!(completion_message_id("order-7", 3), "workflow:order-7:run:3");
    assert_eq!(archive_key("order-7", 12), "archive/b3JkZXItNw/00000000000000000012");
}

#[test]
fn only_running_workflows_take_external_events() {
    assert_eq!(accept_external_event(WorkflowStatus::Running), Ok(()));
    assert_eq!(
        accept_external_event(WorkflowStatus::Completed),
        Err(WorkflowStatus::Completed)
    );
    assert!(external_event_arrived(Some(9), 8));
    assert!(!external_event_arrived(Some(8), 8));
    assert!(!external_event_arrived(None, 0));
}

#[test]
fn polls_match_queue_and_pinned_build() {
    let builds = vec!["b1".to_owned(), "b2".to_owned()];
    assert!(task_matches_poll(None, &[], "q", None));
    assert!(task_matches_poll(Some("q"), &builds, "q", Some("b2")));
    assert!(!task_matches_poll(Some("other"), &builds, "q", None));
    assert!(!task_matches_poll(None, &builds, "q", Some("b3")));
}

fn route(queue: &str, build: Option<&str>, group: Option<&str>) -> TaskRoute {
    TaskRoute {
        task_queue: queue.to_owned(),
        build_id: build.map(str::to_owned),
        batch_group: group.map(str::to_owned),
    }
}

#[test]
fn batches_take_the_first_tasks_of_the_first_route() {
    let routes = vec![
        route("q", None, Some("g")),
        route("q", None, None),
        route("q", None, Some("g")),
        route("q", Some("b"), Some("g")),
        route("q", None, Some("g")),
    ];
    assert_eq!(workflow_batch(&routes, 2, false), vec![0, 2]);
    assert_eq!(workflow_batch(&routes, 8, false), vec![0, 2, 4]);
    assert_eq!(workflow_batch(&routes, 8, true), Vec::<usize>::new());
    assert_eq!(workflow_batch(&routes, 3, true), vec![0, 2, 4]);
    assert_eq!(workflow_batch(&routes, 0, true), vec![0]);
    let ungrouped = vec![route("q", None, None), route("q", None, None)];
    assert_eq!(workflow_batch(&ungrouped, 50, true), vec![0]);
    assert_eq!(workflow_batch(&[], 5, false), Vec::<usize>::new());
}

#[test]
fn completion_batches_hold_one_to_1024_items() {
    assert!(!completion_batch_size_ok(0));
    assert!(completion_batch_size_ok(1));
    assert!(completion_batch_size_ok(1024));
    assert!(!completion_batch_size_ok(1025));
}

#[test]
fn queries_are_taken_from_the_polled_queue_in_order() {
    let queues = vec!["a".to_owned(), "b".to_owned(), "b".to_owned()];
    assert_eq!(first_query(&queues, None), Some(0));
    assert_eq!(first_query(&queues, Some("b")), Some(1));
    assert_eq!(first_query(&queues, Some("c")), None);
    assert_eq!(first_query(&[], None), None);
}

#[test]
fn activities_retry_within_their_budget() {
    assert_eq!(activity_outcome(false, false, 1, 3, true), ActivityOutcome::Completed);
    assert_eq!(
        activity_outcome(true, false, 1, 3, true),
        ActivityOutcome::RetryScheduled { next_attempt: 2 }
    );
    assert_eq!(activity_outcome(true, false, 3, 3, true), ActivityOutcome::Failed);
    assert_eq!(activity_outcome(true, true, 1, 3, true), ActivityOutcome::Failed);
    assert_eq!(activity_outcome(true, false, 1, 3, false), ActivityOutcome::Failed);
    assert_eq!(activity_event_type(ActivityOutcome::Failed), "ACTIVITY_FAILED");
    assert_eq!(
        activity_event_type(ActivityOutcome::RetryScheduled { next_attempt: 2 }),
        "ACTIVITY_RETRY_SCHEDULED"
    );
    assert_eq!(activity_max_attempts(None), 3);
    assert_eq!(activity_max_attempts(Some(7)), 7);
    assert_eq!(activity_max_attempts(Some((1u64 << 32) + 5)), 5);
}

#[test]
fn failed_workflow_tasks_move_executions_to_retrying_then_quarantine() {
    let mut load = ProcessLoad { running: 2, retrying: 0, quarantined: 0 };
    assert_eq!(record_workflow_task_failure(&mut load, 0, 1, 3), ProcessFailureDisposition::Retry);
    assert_eq!(load, ProcessLoad { running: 1, retrying: 1, quarantined: 0 });
    assert_eq!(
        record_workflow_task_failure(&mut load, 1, 3, 3),
        ProcessFailureDisposition::Quarantine
    );
    assert_eq!(load, ProcessLoad { running: 1, retrying: 1, quarantined: 1 });
}

#[test]
fn closing_a_parent_applies_child_close_policies_through_the_tree() {
    let (abandon, cancel, terminate) = (
        ChildCloseAction::Abandon,
        ChildCloseAction::RequestCancel,
        ChildCloseAction::Terminate,
    );
    let (completed, failed, running, terminated) = (
        WorkflowStatus::Completed,
        WorkflowStatus::Failed,
        WorkflowStatus::Running,
        WorkflowStatus::Terminated,
    );
    let children = vec![vec![1, 2, 3, 6], vec![4], vec![], vec![], vec![5], vec![], vec![]];
    let policies = vec![abandon, terminate, cancel, abandon, terminate, cancel, terminate];
    let mut statuses = vec![running, running, running, running, running, running, failed];
    let effects = close_workflow_tree(&mut statuses, &children, &policies, 0, completed);
    assert_eq!(
        effects,
        vec![
            CloseEffect::Closed { index: 0, status: completed },
            CloseEffect::Closed { index: 1, status: terminated },
            CloseEffect::Closed { index: 4, status: terminated },
            CloseEffect::CancelRequested { index: 5 },
            CloseEffect::CancelRequested { index: 2 },
        ]
    );
    assert_eq!(
        statuses,
        vec![completed, terminated, running, running, terminated, running, failed]
    );
}

#[test]
fn closing_a_leaf_touches_nothing_else() {
    let children = vec![vec![], vec![0]];
    let policies = vec![ChildCloseAction::Terminate, ChildCloseAction::Abandon];
    let mut statuses = vec![WorkflowStatus::Running, WorkflowStatus::Running];
    let effects = close_workflow_tree(&mut statuses, &children, &policies, 0, WorkflowStatus::TimedOut);
    assert_eq!(effects, vec![CloseEffect::Closed { index: 0, status: WorkflowStatus::TimedOut }]);
    assert_eq!(statuses, vec![WorkflowStatus::TimedOut, WorkflowStatus::Running]);
}

#[test]
fn a_completion_with_an_unsupported_command_is_refused_whole() {
    let names = vec!["START_TIMER".to_owned(), "COMPLETE_WORKFLOW".to_owned()];
    assert_eq!(
        command_kinds(&names),
        Ok(vec![CommandKind::StartTimer, CommandKind::CompleteWorkflow])
    );
    let names = vec!["START_TIMER".to_owned(), "JUMP".to_owned(), "NOPE".to_owned()];
    assert_eq!(command_kinds(&names), Err(1));
    assert_eq!(command_kinds(&[]), Ok(vec![]));
}

#[test]
fn polls_take_the_earliest_available_tasks_first_and_keep_ties_in_order() {
    let times: Vec<u64> = [3.0f64, 1.0, 3.0, -1.0, 1.0].iter().map(|t| t.to_bits()).collect();
    assert_eq!(poll_order(&times), vec![3, 1, 4, 0, 2]);
    assert_eq!(poll_order(&[]), Vec::<usize>::new());
    let same: Vec<u64> = [2.5f64, 2.5, 2.5].iter().map(|t| t.to_bits()).collect();
    assert_eq!(poll_order(&same), vec![0, 1, 2]);
}
