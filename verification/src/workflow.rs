//! Decisions of the workflow engine: which command a worker sent, what history event it
//! records, how a closing workflow treats its children and parent, and which workflow
//! tasks a poll hands out.
use vstd::prelude::*;
use crate::text::{str_eq, decimal_text, push_radix};
use crate::process::{ProcessFailureDisposition, process_failure_disposition};
use crate::keyspace::{spec_ordered_f64_bits, ordered_f64_bits};

verus! {

/// A command that a worker returns with a completed workflow activation.
#[derive(Clone, Copy, Debug, PartialEq, Eq, Structural)]
pub enum CommandKind {
    CompleteUpdate,
    FailUpdate,
    StartTimer,
    StartWatermarkTimer,
    ScheduleActivity,
    RecordVersion,
    StartChild,
    ContinueAsNew,
    CompleteWorkflow,
    FailWorkflow,
    CancelWorkflow,
}

/// The wire name of each command.
pub open spec fn spec_command_name(kind: CommandKind) -> Seq<char> {
    match kind {
        CommandKind::CompleteUpdate => "COMPLETE_UPDATE"@,
        CommandKind::FailUpdate => "FAIL_UPDATE"@,
        CommandKind::StartTimer => "START_TIMER"@,
        CommandKind::StartWatermarkTimer => "START_WATERMARK_TIMER"@,
        CommandKind::ScheduleActivity => "SCHEDULE_ACTIVITY"@,
        CommandKind::RecordVersion => "RECORD_VERSION"@,
        CommandKind::StartChild => "START_CHILD"@,
        CommandKind::ContinueAsNew => "CONTINUE_AS_NEW"@,
        CommandKind::CompleteWorkflow => "COMPLETE_WORKFLOW"@,
        CommandKind::FailWorkflow => "FAIL_WORKFLOW"@,
        CommandKind::CancelWorkflow => "CANCEL_WORKFLOW"@,
    }
}

/// The command a wire name denotes; any other name is an unsupported command.
pub open spec fn spec_command_kind(name: Seq<char>) -> Option<CommandKind> {
    if name == "COMPLETE_UPDATE"@ {
        Some(CommandKind::CompleteUpdate)
    } else if name == "FAIL_UPDATE"@ {
        Some(CommandKind::FailUpdate)
    } else if name == "START_TIMER"@ {
        Some(CommandKind::StartTimer)
    } else if name == "START_WATERMARK_TIMER"@ {
        Some(CommandKind::StartWatermarkTimer)
    } else if name == "SCHEDULE_ACTIVITY"@ {
        Some(CommandKind::ScheduleActivity)
    } else if name == "RECORD_VERSION"@ {
        Some(CommandKind::RecordVersion)
    } else if name == "START_CHILD"@ {
        Some(CommandKind::StartChild)
    } else if name == "CONTINUE_AS_NEW"@ {
        Some(CommandKind::ContinueAsNew)
    } else if name == "COMPLETE_WORKFLOW"@ {
        Some(CommandKind::CompleteWorkflow)
    } else if name == "FAIL_WORKFLOW"@ {
        Some(CommandKind::FailWorkflow)
    } else if name == "CANCEL_WORKFLOW"@ {
        Some(CommandKind::CancelWorkflow)
    } else {
        None
    }
}

/// Reads a command's wire name; `None` is the "unsupported activation command" error.
pub fn command_kind(name: &str) -> (kind: Option<CommandKind>)
    ensures
        kind == spec_command_kind(name@),
{
    if str_eq(name, "COMPLETE_UPDATE") {
        Some(CommandKind::CompleteUpdate)
    } else if str_eq(name, "FAIL_UPDATE") {
        Some(CommandKind::FailUpdate)
    } else if str_eq(name, "START_TIMER") {
        Some(CommandKind::StartTimer)
    } else if str_eq(name, "START_WATERMARK_TIMER") {
        Some(CommandKind::StartWatermarkTimer)
    } else if str_eq(name, "SCHEDULE_ACTIVITY") {
        Some(CommandKind::ScheduleActivity)
    } else if str_eq(name, "RECORD_VERSION") {
        Some(CommandKind::RecordVersion)
    } else if str_eq(name, "START_CHILD") {
        Some(CommandKind::StartChild)
    } else if str_eq(name, "CONTINUE_AS_NEW") {
        Some(CommandKind::ContinueAsNew)
    } else if str_eq(name, "COMPLETE_WORKFLOW") {
        Some(CommandKind::CompleteWorkflow)
    } else if str_eq(name, "FAIL_WORKFLOW") {
        Some(CommandKind::FailWorkflow)
    } else if str_eq(name, "CANCEL_WORKFLOW") {
        Some(CommandKind::CancelWorkflow)
    } else {
        None
    }
}

/// Reads the commands of one completion. A completion is applied whole or not at all, so
/// the first unsupported name (by its position) refuses all of it.
pub fn command_kinds(names: &[String]) -> (r: Result<Vec<CommandKind>, usize>)
    ensures
        match r {
            Ok(kinds) => kinds@.len() == names@.len() && forall|i: int|
                0 <= i < names@.len() ==> spec_command_kind(names@[i]@) == Some(#[trigger] kinds@[i]),
            Err(bad) => bad < names@.len() && spec_command_kind(names@[bad as int]@) is None
                && forall|i: int| 0 <= i < bad ==> spec_command_kind(#[trigger] names@[i]@) is Some,
        },
{
    let mut kinds: Vec<CommandKind> = Vec::new();
    let mut i: usize = 0;
    while i < names.len()
        invariant
            i <= names.len(),
            kinds@.len() == i,
            forall|j: int| 0 <= j < i ==> spec_command_kind(names@[j]@) == Some(#[trigger] kinds@[j]),
        decreases names.len() - i,
    {
        match command_kind(names[i].as_str()) {
            Some(kind) => kinds.push(kind),
            None => {
                assert forall|j: int| 0 <= j < i implies spec_command_kind(#[trigger] names@[j]@) is Some by {
                    assert(spec_command_kind(names@[j]@) == Some(kinds@[j]));
                }
                return Err(i);
            },
        }
        i = i + 1;
    }
    Ok(kinds)
}

/// Each command is read back from its own wire name, and a name that is read as a
/// command is exactly that command's name.
pub proof fn law_command_names_round_trip(kind: CommandKind, name: Seq<char>)
    ensures
        spec_command_kind(spec_command_name(kind)) == Some(kind),
        spec_command_kind(name) == Some(kind) ==> name == spec_command_name(kind),
{
    reveal_strlit("COMPLETE_UPDATE");
    reveal_strlit("FAIL_UPDATE");
    reveal_strlit("START_TIMER");
    reveal_strlit("START_WATERMARK_TIMER");
    reveal_strlit("SCHEDULE_ACTIVITY");
    reveal_strlit("RECORD_VERSION");
    reveal_strlit("START_CHILD");
    reveal_strlit("CONTINUE_AS_NEW");
    reveal_strlit("COMPLETE_WORKFLOW");
    reveal_strlit("FAIL_WORKFLOW");
    reveal_strlit("CANCEL_WORKFLOW");
    assert("COMPLETE_UPDATE"@.len() == 15);
    assert("FAIL_UPDATE"@.len() == 11);
    assert("START_TIMER"@.len() == 11);
    assert("START_WATERMARK_TIMER"@.len() == 21);
    assert("SCHEDULE_ACTIVITY"@.len() == 17);
    assert("RECORD_VERSION"@.len() == 14);
    assert("START_CHILD"@.len() == 11);
    assert("CONTINUE_AS_NEW"@.len() == 15);
    assert("COMPLETE_WORKFLOW"@.len() == 17);
    assert("FAIL_WORKFLOW"@.len() == 13);
    assert("CANCEL_WORKFLOW"@.len() == 15);
    assert("COMPLETE_UPDATE"@[2] != "CONTINUE_AS_NEW"@[2]);
    assert("COMPLETE_UPDATE"@[1] != "CANCEL_WORKFLOW"@[1]);
    assert("CONTINUE_AS_NEW"@[1] != "CANCEL_WORKFLOW"@[1]);
    assert("FAIL_UPDATE"@[0] != "START_TIMER"@[0]);
    assert("FAIL_UPDATE"@[0] != "START_CHILD"@[0]);
    assert("START_TIMER"@[6] != "START_CHILD"@[6]);
    assert("SCHEDULE_ACTIVITY"@[0] != "COMPLETE_WORKFLOW"@[0]);
}

/// The life-cycle state of a workflow run.
#[derive(Clone, Copy, Debug, PartialEq, Eq, Structural)]
pub enum WorkflowStatus {
    Running,
    Completed,
    Failed,
    Cancelled,
    Terminated,
    TimedOut,
}

/// The stored name of each status.
pub open spec fn spec_status_name(status: WorkflowStatus) -> Seq<char> {
    match status {
        WorkflowStatus::Running => "RUNNING"@,
        WorkflowStatus::Completed => "COMPLETED"@,
        WorkflowStatus::Failed => "FAILED"@,
        WorkflowStatus::Cancelled => "CANCELLED"@,
        WorkflowStatus::Terminated => "TERMINATED"@,
        WorkflowStatus::TimedOut => "TIMED_OUT"@,
    }
}

/// The stored name of a status, as a workflow record holds it.
pub fn status_name(status: WorkflowStatus) -> (name: &'static str)
    ensures
        name@ == spec_status_name(status),
{
    match status {
        WorkflowStatus::Running => "RUNNING",
        WorkflowStatus::Completed => "COMPLETED",
        WorkflowStatus::Failed => "FAILED",
        WorkflowStatus::Cancelled => "CANCELLED",
        WorkflowStatus::Terminated => "TERMINATED",
        WorkflowStatus::TimedOut => "TIMED_OUT",
    }
}

/// The history event that records a workflow closing with `status`: `WORKFLOW_` and the
/// status's name.
pub open spec fn spec_close_event_type(status: WorkflowStatus) -> Seq<char> {
    "WORKFLOW_"@ + spec_status_name(status)
}

pub fn close_event_type(status: WorkflowStatus) -> (event_type: String)
    ensures
        event_type@ == spec_close_event_type(status),
{
    let mut event_type = String::new();
    event_type.append("WORKFLOW_");
    event_type.append(status_name(status));
    event_type
}

/// The status in which a closing command leaves the workflow; other commands leave it
/// running.
pub open spec fn spec_command_close_status(kind: CommandKind) -> Option<WorkflowStatus> {
    match kind {
        CommandKind::CompleteWorkflow => Some(WorkflowStatus::Completed),
        CommandKind::FailWorkflow => Some(WorkflowStatus::Failed),
        CommandKind::CancelWorkflow => Some(WorkflowStatus::Cancelled),
        _ => None,
    }
}

pub fn command_close_status(kind: CommandKind) -> (status: Option<WorkflowStatus>)
    ensures
        status == spec_command_close_status(kind),
{
    match kind {
        CommandKind::CompleteWorkflow => Some(WorkflowStatus::Completed),
        CommandKind::FailWorkflow => Some(WorkflowStatus::Failed),
        CommandKind::CancelWorkflow => Some(WorkflowStatus::Cancelled),
        _ => None,
    }
}

/// The history event that a command records on its own workflow. A closing command
/// records the close event of the status it closes with.
pub open spec fn spec_command_event_type(kind: CommandKind) -> Seq<char> {
    match kind {
        CommandKind::CompleteUpdate => "UPDATE_COMPLETED"@,
        CommandKind::FailUpdate => "UPDATE_FAILED"@,
        CommandKind::StartTimer => "TIMER_STARTED"@,
        CommandKind::StartWatermarkTimer => "WATERMARK_TIMER_STARTED"@,
        CommandKind::ScheduleActivity => "ACTIVITY_SCHEDULED"@,
        CommandKind::RecordVersion => "VERSION_MARKER"@,
        CommandKind::StartChild => "CHILD_WORKFLOW_SCHEDULED"@,
        CommandKind::ContinueAsNew => "WORKFLOW_CONTINUED_AS_NEW"@,
        CommandKind::CompleteWorkflow => spec_close_event_type(WorkflowStatus::Completed),
        CommandKind::FailWorkflow => spec_close_event_type(WorkflowStatus::Failed),
        CommandKind::CancelWorkflow => spec_close_event_type(WorkflowStatus::Cancelled),
    }
}

pub fn command_event_type(kind: CommandKind) -> (event_type: String)
    ensures
        event_type@ == spec_command_event_type(kind),
{
    match command_close_status(kind) {
        Some(status) => close_event_type(status),
        None => {
            let name: &str = match kind {
                CommandKind::CompleteUpdate => "UPDATE_COMPLETED",
                CommandKind::FailUpdate => "UPDATE_FAILED",
                CommandKind::StartTimer => "TIMER_STARTED",
                CommandKind::StartWatermarkTimer => "WATERMARK_TIMER_STARTED",
                CommandKind::ScheduleActivity => "ACTIVITY_SCHEDULED",
                CommandKind::RecordVersion => "VERSION_MARKER",
                CommandKind::StartChild => "CHILD_WORKFLOW_SCHEDULED",
                _ => "WORKFLOW_CONTINUED_AS_NEW",
            };
            let mut event_type = String::new();
            event_type.append(name);
            event_type
        },
    }
}

/// What a closing parent does to a child that is still running, by the child's parent
/// close policy.
#[derive(Clone, Copy, Debug, PartialEq, Eq, Structural)]
pub enum ChildCloseAction {
    /// Record a cancel request on the child and wake it.
    RequestCancel,
    /// Close the child as terminated.
    Terminate,
    /// Leave the child running.
    Abandon,
}

pub open spec fn spec_child_close_action(policy: Option<Seq<char>>) -> ChildCloseAction {
    match policy {
        Some(p) => if p == "REQUEST_CANCEL"@ {
            ChildCloseAction::RequestCancel
        } else if p == "TERMINATE"@ {
            ChildCloseAction::Terminate
        } else {
            ChildCloseAction::Abandon
        },
        None => ChildCloseAction::Abandon,
    }
}

pub fn child_close_action(policy: Option<&str>) -> (action: ChildCloseAction)
    ensures
        action == spec_child_close_action(match policy {
            Some(p) => Some(p@),
            None => None,
        }),
{
    match policy {
        Some(p) => if str_eq(p, "REQUEST_CANCEL") {
            ChildCloseAction::RequestCancel
        } else if str_eq(p, "TERMINATE") {
            ChildCloseAction::Terminate
        } else {
            ChildCloseAction::Abandon
        },
        None => ChildCloseAction::Abandon,
    }
}

/// The event that a running parent receives when its child closes: completed for a
/// completed child, failed for every other way of closing.
pub open spec fn spec_parent_event_type(status: WorkflowStatus) -> Seq<char> {
    if status == WorkflowStatus::Completed {
        "CHILD_WORKFLOW_COMPLETED"@
    } else {
        "CHILD_WORKFLOW_FAILED"@
    }
}

pub fn parent_event_type(status: WorkflowStatus) -> (event_type: &'static str)
    ensures
        event_type@ == spec_parent_event_type(status),
{
    if status == WorkflowStatus::Completed {
        "CHILD_WORKFLOW_COMPLETED"
    } else {
        "CHILD_WORKFLOW_FAILED"
    }
}

/// The outbox message id under which a completed run publishes its result:
/// `workflow:{id}:run:{run_number}`.
pub open spec fn spec_completion_message_id(id: Seq<char>, run_number: nat) -> Seq<char> {
    "workflow:"@ + id + ":run:"@ + decimal_text(run_number)
}

pub fn completion_message_id(id: &str, run_number: u32) -> (message_id: String)
    ensures
        message_id@ == spec_completion_message_id(id@, run_number as nat),
{
    let mut message_id = String::new();
    message_id.append("workflow:");
    message_id.append(id);
    message_id.append(":run:");
    push_radix(&mut message_id, run_number as u64, 0, 10);
    message_id
}

/// What closing a workflow records beside its own close event.
pub struct ClosePlan {
    /// The workflow's close event.
    pub event_type: String,
    /// Whether the run's result is published to the `workflows` outbox.
    pub publishes_result: bool,
    /// The event for the parent, where it has one that is still running.
    pub parent_event: Option<&'static str>,
}

/// The effects of closing a workflow with `status`: its close event, the outbox message
/// of a completed run, and the event its running parent receives.
pub fn close_plan(status: WorkflowStatus, parent_running: bool) -> (plan: ClosePlan)
    ensures
        plan.event_type@ == spec_close_event_type(status),
        plan.publishes_result == (status == WorkflowStatus::Completed),
        parent_running ==> (plan.parent_event matches Some(e) && e@ == spec_parent_event_type(status)),
        !parent_running ==> plan.parent_event is None,
{
    ClosePlan {
        event_type: close_event_type(status),
        publishes_result: status == WorkflowStatus::Completed,
        parent_event: if parent_running {
            Some(parent_event_type(status))
        } else {
            None
        },
    }
}

/// Events from outside (signals, updates, cancel requests) and termination reach only a
/// running workflow; any other status is the "workflow is {status}" error, which carries it.
pub fn accept_external_event(status: WorkflowStatus) -> (r: Result<(), WorkflowStatus>)
    ensures
        r is Ok <==> status == WorkflowStatus::Running,
        r matches Err(s) ==> s == status,
{
    if status == WorkflowStatus::Running {
        Ok(())
    } else {
        Err(status)
    }
}

/// A completion whose history ends at `history_event_id` missed events when the stored
/// history already holds a later one; the workflow is then queued again.
pub fn external_event_arrived(last_event_id: Option<u64>, history_event_id: u64) -> (arrived: bool)
    ensures
        arrived == (match last_event_id {
            Some(id) => id > history_event_id,
            None => false,
        }),
{
    match last_event_id {
        Some(id) => id > history_event_id,
        None => false,
    }
}

pub open spec fn option_text(value: Option<String>) -> Option<Seq<char>> {
    match value {
        Some(text) => Some(text@),
        None => None,
    }
}

fn same_option_text(a: &Option<String>, b: &Option<String>) -> (eq: bool)
    ensures
        eq == (option_text(*a) == option_text(*b)),
{
    match (a, b) {
        (Some(x), Some(y)) => str_eq(x.as_str(), y.as_str()),
        (None, None) => true,
        _ => false,
    }
}

/// Whether a poll from a worker may take a workflow task, apart from the task's times: the
/// poll names no queue or the task's queue, and the task is pinned to no build or to one of
/// the builds that the worker runs.
pub open spec fn spec_task_matches_poll(
    queue: Option<Seq<char>>,
    build_ids: Seq<Seq<char>>,
    task_queue: Seq<char>,
    task_build: Option<Seq<char>>,
) -> bool {
    &&& match queue {
        Some(q) => q == task_queue,
        None => true,
    }
    &&& match task_build {
        Some(b) => build_ids.contains(b),
        None => true,
    }
}

pub open spec fn texts(values: Seq<String>) -> Seq<Seq<char>> {
    values.map_values(|v: String| v@)
}

pub fn task_matches_poll(
    queue: Option<&str>,
    build_ids: &[String],
    task_queue: &str,
    task_build: Option<&str>,
) -> (matches: bool)
    ensures
        matches == spec_task_matches_poll(
            match queue {
                Some(q) => Some(q@),
                None => None,
            },
            texts(build_ids@),
            task_queue@,
            match task_build {
                Some(b) => Some(b@),
                None => None,
            },
        ),
{
    if let Some(q) = queue {
        if !str_eq(q, task_queue) {
            return false;
        }
    }
    match task_build {
        None => true,
        Some(b) => {
            let mut i: usize = 0;
            while i < build_ids.len()
                invariant
                    i <= build_ids.len(),
                    forall|j: int| 0 <= j < i ==> build_ids@[j]@ != b@,
                    task_build == Some(b),
                    match queue {
                        Some(q) => q@ == task_queue@,
                        None => true,
                    },
                decreases build_ids.len() - i,
            {
                if str_eq(build_ids[i].as_str(), b) {
                    proof {
                        assert(texts(build_ids@)[i as int] == b@);
                        assert(texts(build_ids@).contains(b@));
                    }
                    return true;
                }
                i = i + 1;
            }
            proof {
                if texts(build_ids@).contains(b@) {
                    let j = choose|j: int| 0 <= j < texts(build_ids@).len() && texts(build_ids@)[j] == b@;
                    assert(build_ids@[j]@ == b@);
                }
            }
            false
        },
    }
}

/// Where a workflow task is routed: its queue, the build it is pinned to and the batch
/// group it waits in.
pub struct TaskRoute {
    pub task_queue: String,
    pub build_id: Option<String>,
    pub batch_group: Option<String>,
}

pub open spec fn same_route(a: TaskRoute, b: TaskRoute) -> bool {
    &&& option_text(a.batch_group) == option_text(b.batch_group)
    &&& option_text(a.build_id) == option_text(b.build_id)
    &&& a.task_queue@ == b.task_queue@
}

/// The positions among the first `n` candidates that share the route of `first`, in order.
pub open spec fn same_route_positions(routes: Seq<TaskRoute>, first: TaskRoute, n: int) -> Seq<usize>
    decreases n,
{
    if n <= 0 {
        Seq::empty()
    } else {
        let before = same_route_positions(routes, first, n - 1);
        if same_route(routes[n - 1], first) {
            before.push((n - 1) as usize)
        } else {
            before
        }
    }
}

/// How many tasks one batch may hold: the first task's batch size, kept within 1 to 1024,
/// where it belongs to a batch group; one task otherwise.
pub open spec fn spec_batch_limit(grouped: bool, batch_max_size: u32) -> nat {
    if !grouped {
        1
    } else if batch_max_size < 1 {
        1
    } else if batch_max_size > 1024 {
        1024
    } else {
        batch_max_size as nat
    }
}

/// The workflow tasks that one batch poll takes. `routes` are the eligible tasks, earliest
/// first. The batch is made of the tasks that share the first task's group, build and
/// queue, in order, at most the batch limit of them; a grouped batch that is not yet full
/// waits (no tasks) while its window, `window_open`, lasts.
pub open spec fn spec_workflow_batch(routes: Seq<TaskRoute>, batch_max_size: u32, window_open: bool) -> Seq<usize> {
    if routes.len() == 0 {
        Seq::empty()
    } else {
        let first = routes[0];
        let all = same_route_positions(routes, first, routes.len() as int);
        let limit = spec_batch_limit(first.batch_group is Some, batch_max_size);
        if first.batch_group is Some && all.len() < limit && window_open {
            Seq::empty()
        } else if all.len() <= limit {
            all
        } else {
            all.subrange(0, limit as int)
        }
    }
}

pub fn workflow_batch(routes: &[TaskRoute], batch_max_size: u32, window_open: bool) -> (batch: Vec<usize>)
    ensures
        batch@ == spec_workflow_batch(routes@, batch_max_size, window_open),
{
    if routes.len() == 0 {
        return Vec::new();
    }
    let first = &routes[0];
    let grouped = first.batch_group.is_some();
    let limit: usize = if !grouped {
        1
    } else if batch_max_size < 1 {
        1
    } else if batch_max_size > 1024 {
        1024
    } else {
        batch_max_size as usize
    };
    let mut all: Vec<usize> = Vec::new();
    let mut i: usize = 0;
    while i < routes.len()
        invariant
            i <= routes.len(),
            routes.len() > 0,
            *first == routes@[0],
            all@ == same_route_positions(routes@, routes@[0], i as int),
            all.len() <= i,
        decreases routes.len() - i,
    {
        let same = same_option_text(&routes[i].batch_group, &first.batch_group)
            && same_option_text(&routes[i].build_id, &first.build_id)
            && str_eq(routes[i].task_queue.as_str(), first.task_queue.as_str());
        if same {
            all.push(i);
        }
        i = i + 1;
    }
    if grouped && all.len() < limit && window_open {
        return Vec::new();
    }
    all.truncate(limit);
    all
}


proof fn lemma_same_route_positions(routes: Seq<TaskRoute>, first: TaskRoute, n: int)
    requires
        n <= routes.len(),
        routes.len() <= usize::MAX,
    ensures
        forall|k: int| #![trigger same_route_positions(routes, first, n)[k]]
            0 <= k < same_route_positions(routes, first, n).len() ==> {
                let p = same_route_positions(routes, first, n)[k] as int;
                &&& 0 <= p < n
                &&& routes[p].task_queue@ == first.task_queue@
                &&& option_text(routes[p].build_id) == option_text(first.build_id)
                &&& option_text(routes[p].batch_group) == option_text(first.batch_group)
                &&& forall|m: int| 0 <= m < k ==> (same_route_positions(routes, first, n)[m] as int) < p
            },
        0 < n && same_route(routes[0], first) ==> same_route_positions(routes, first, n).len() > 0
            && same_route_positions(routes, first, n)[0] == 0,
    decreases n,
{
    if n > 0 {
        lemma_same_route_positions(routes, first, n - 1);
        let before = same_route_positions(routes, first, n - 1);
        let now = same_route_positions(routes, first, n);
        assert forall|k: int| 0 <= k < now.len() implies {
            let p = #[trigger] now[k] as int;
            &&& 0 <= p < n
            &&& routes[p].task_queue@ == first.task_queue@
            &&& option_text(routes[p].build_id) == option_text(first.build_id)
            &&& option_text(routes[p].batch_group) == option_text(first.batch_group)
            &&& forall|m: int| 0 <= m < k ==> (now[m] as int) < p
        } by {
            if k < before.len() {
                assert(now[k] == before[k]);
                assert forall|m: int| 0 <= m < k implies (now[m] as int) < (now[k] as int) by {
                    assert(now[m] == before[m]);
                }
            } else {
                assert(now == before.push((n - 1) as usize));
                assert forall|m: int| 0 <= m < k implies (now[m] as int) < (now[k] as int) by {
                    assert(now[m] == before[m]);
                }
            }
        }
        if n == 1 {
            assert(same_route_positions(routes, first, 0) =~= Seq::<usize>::empty());
        }
    }
}

/// A batch poll leases only tasks on the first eligible task's queue, pinned to its build
/// and waiting in its batch group, each once and earliest first, never more than the
/// batch limit allows (one ungrouped task, at most 1024 grouped ones); once the batch
/// window has closed the first eligible task is always in it.
pub proof fn law_workflow_batch_shares_first_route(
    routes: Seq<TaskRoute>,
    batch_max_size: u32,
    window_open: bool,
    k: int,
)
    requires
        routes.len() <= usize::MAX,
    ensures
        ({
            let batch = spec_workflow_batch(routes, batch_max_size, window_open);
            &&& 0 <= k < batch.len() ==> {
                let p = batch[k] as int;
                &&& 0 <= p < routes.len()
                &&& routes[p].task_queue@ == routes[0].task_queue@
                &&& option_text(routes[p].build_id) == option_text(routes[0].build_id)
                &&& option_text(routes[p].batch_group) == option_text(routes[0].batch_group)
                &&& forall|m: int| 0 <= m < k ==> (batch[m] as int) < p
            }
            &&& batch.len() <= 1024
            &&& routes[0].batch_group is None ==> batch.len() <= 1
            &&& batch.len() <= batch_max_size || batch.len() <= 1
            &&& (routes.len() > 0 && !window_open) ==> (batch.len() > 0 && batch[0] == 0)
        }),
{
    if routes.len() > 0 {
        let first = routes[0];
        let n = routes.len() as int;
        lemma_same_route_positions(routes, first, n);
        let all = same_route_positions(routes, first, n);
        let batch = spec_workflow_batch(routes, batch_max_size, window_open);
        if 0 <= k < batch.len() {
            assert(batch[k] == all[k]);
            assert forall|m: int| 0 <= m < k implies (batch[m] as int) < (batch[k] as int) by {
                assert(batch[m] == all[m]);
            }
        }
        if !window_open {
            assert(same_route(routes[0], first));
            assert(all[0] == 0);
        }
    }
}
/// A worker may complete between 1 and 1024 workflow tasks in one batch.
pub fn completion_batch_size_ok(len: usize) -> (ok: bool)
    ensures
        ok == (1 <= len <= 1024),
{
    1 <= len && len <= 1024
}

/// The first queued query that a poll takes: the earliest one on the poll's queue, or the
/// earliest of all where the poll names no queue.
pub fn first_query(queues: &[String], selected: Option<&str>) -> (position: Option<usize>)
    ensures
        match selected {
            None => position == (if queues.len() > 0 { Some(0usize) } else { None }),
            Some(q) => match position {
                Some(p) => p < queues.len() && queues@[p as int]@ == q@
                    && forall|j: int| 0 <= j < p ==> queues@[j]@ != q@,
                None => forall|j: int| 0 <= j < queues.len() ==> queues@[j]@ != q@,
            },
        },
{
    match selected {
        None => if queues.len() > 0 {
            Some(0)
        } else {
            None
        },
        Some(q) => {
            let mut i: usize = 0;
            while i < queues.len()
                invariant
                    i <= queues.len(),
                    forall|j: int| 0 <= j < i ==> queues@[j]@ != q@,
                    selected == Some(q),
                decreases queues.len() - i,
            {
                if str_eq(queues[i].as_str(), q) {
                    return Some(i);
                }
                i = i + 1;
            }
            None
        },
    }
}

/// How an activity attempt that a worker reported ends.
#[derive(Clone, Copy, Debug, PartialEq, Eq, Structural)]
pub enum ActivityOutcome {
    Completed,
    /// The activity runs again, as attempt `next_attempt`.
    RetryScheduled { next_attempt: u32 },
    Failed,
}

/// An activity that reported success is completed. One that failed is tried again while
/// the failure is retryable, attempts remain and the retry would start before the
/// activity's schedule-to-close deadline (`retry_in_time`); otherwise it fails.
pub fn activity_outcome(
    failed: bool,
    non_retryable: bool,
    attempt: u32,
    max_attempts: u32,
    retry_in_time: bool,
) -> (outcome: ActivityOutcome)
    ensures
        !failed ==> outcome == ActivityOutcome::Completed,
        failed && !non_retryable && attempt < max_attempts && retry_in_time
            ==> outcome == (ActivityOutcome::RetryScheduled { next_attempt: (attempt + 1) as u32 }),
        failed && !(!non_retryable && attempt < max_attempts && retry_in_time)
            ==> outcome == ActivityOutcome::Failed,
{
    if !failed {
        ActivityOutcome::Completed
    } else if !non_retryable && attempt < max_attempts && retry_in_time {
        ActivityOutcome::RetryScheduled { next_attempt: attempt + 1 }
    } else {
        ActivityOutcome::Failed
    }
}

/// The history event that records an activity outcome.
pub fn activity_event_type(outcome: ActivityOutcome) -> (event_type: &'static str)
    ensures
        event_type@ == match outcome {
            ActivityOutcome::Completed => "ACTIVITY_COMPLETED"@,
            ActivityOutcome::RetryScheduled { .. } => "ACTIVITY_RETRY_SCHEDULED"@,
            ActivityOutcome::Failed => "ACTIVITY_FAILED"@,
        },
{
    match outcome {
        ActivityOutcome::Completed => "ACTIVITY_COMPLETED",
        ActivityOutcome::RetryScheduled { .. } => "ACTIVITY_RETRY_SCHEDULED",
        ActivityOutcome::Failed => "ACTIVITY_FAILED",
    }
}

/// The attempt budget of a scheduled activity: the retry policy's maximum attempts, three
/// where it names none, cut to 32 bits as the record stores it.
pub fn activity_max_attempts(requested: Option<u64>) -> (max_attempts: u32)
    ensures
        max_attempts == (match requested {
            Some(n) => n,
            None => 3u64,
        }) as u32,
{
    let n: u64 = match requested {
        Some(n) => n,
        None => 3,
    };
    n as u32
}

/// The counters of a durable process that a failed workflow task touches.
#[derive(Clone, Copy, Debug, PartialEq, Eq, Structural)]
pub struct ProcessLoad {
    pub running: u64,
    pub retrying: u64,
    pub quarantined: u64,
}

/// A workflow task of a process execution failed on attempt `task_attempt`. The first
/// failure of the execution (`execution_attempt` still 0) moves it from running to
/// retrying; reaching the retry budget quarantines it.
pub fn record_workflow_task_failure(
    load: &mut ProcessLoad,
    execution_attempt: u32,
    task_attempt: u32,
    max_attempts: u32,
) -> (d: ProcessFailureDisposition)
    requires
        old(load).retrying < u64::MAX,
        old(load).quarantined < u64::MAX,
    ensures
        d == (if task_attempt >= max_attempts {
            ProcessFailureDisposition::Quarantine
        } else {
            ProcessFailureDisposition::Retry
        }),
        final(load).running == (if execution_attempt == 0 && old(load).running > 0 {
            (old(load).running - 1) as u64
        } else {
            old(load).running
        }),
        final(load).retrying == (if execution_attempt == 0 {
            (old(load).retrying + 1) as u64
        } else {
            old(load).retrying
        }),
        final(load).quarantined == (if d == ProcessFailureDisposition::Quarantine {
            (old(load).quarantined + 1) as u64
        } else {
            old(load).quarantined
        }),
{
    if execution_attempt == 0 {
        if load.running > 0 {
            load.running = load.running - 1;
        }
        load.retrying = load.retrying + 1;
    }
    let d = process_failure_disposition(task_attempt, max_attempts);
    if d == ProcessFailureDisposition::Quarantine {
        load.quarantined = load.quarantined + 1;
    }
    d
}

/// What closing a workflow does to a workflow of its tree.
#[derive(Clone, Copy, Debug, PartialEq, Eq, Structural)]
pub enum CloseEffect {
    /// The workflow at `index` closed with `status`.
    Closed { index: usize, status: WorkflowStatus },
    /// A cancel request was recorded on the running workflow at `index`.
    CancelRequested { index: usize },
}

pub open spec fn running_count(statuses: Seq<WorkflowStatus>) -> nat
    decreases statuses.len(),
{
    if statuses.len() == 0 {
        0
    } else {
        (if statuses.last() == WorkflowStatus::Running {
            1nat
        } else {
            0nat
        }) + running_count(statuses.drop_last())
    }
}

proof fn lemma_running_count_bound(statuses: Seq<WorkflowStatus>)
    ensures
        running_count(statuses) <= statuses.len(),
    decreases statuses.len(),
{
    if statuses.len() > 0 {
        lemma_running_count_bound(statuses.drop_last());
    }
}

proof fn lemma_close_running(statuses: Seq<WorkflowStatus>, i: int, status: WorkflowStatus)
    requires
        0 <= i < statuses.len(),
        statuses[i] == WorkflowStatus::Running,
        status != WorkflowStatus::Running,
    ensures
        running_count(statuses.update(i, status)) + 1 == running_count(statuses),
    decreases statuses.len(),
{
    let updated = statuses.update(i, status);
    if i == statuses.len() - 1 {
        assert(updated.drop_last() =~= statuses.drop_last());
    } else {
        assert(updated.drop_last() =~= statuses.drop_last().update(i, status));
        lemma_close_running(statuses.drop_last(), i, status);
    }
}

proof fn lemma_monotone_count(before: Seq<WorkflowStatus>, after: Seq<WorkflowStatus>)
    requires
        cascade_monotone(before, after),
    ensures
        running_count(after) <= running_count(before),
    decreases before.len(),
{
    if before.len() > 0 {
        let b = before.drop_last();
        let a = after.drop_last();
        assert forall|i: int| 0 <= i < b.len() && b[i] != WorkflowStatus::Running implies a[i] == b[i] by {
            assert(b[i] == before[i] && a[i] == after[i]);
        }
        assert forall|i: int| 0 <= i < b.len() && a[i] != b[i] implies a[i] == WorkflowStatus::Terminated by {
            assert(b[i] == before[i] && a[i] == after[i]);
        }
        lemma_monotone_count(b, a);
    }
}

/// Child lists that name workflows of the tree.
pub open spec fn tree_ok(children: Seq<Vec<usize>>, len: nat) -> bool {
    &&& children.len() == len
    &&& forall|p: int, j: int| 0 <= p < children.len() && 0 <= j < children[p]@.len()
        ==> children[p]@[j] < len
}

/// A workflow closed by this cascade leaves none of its children that it terminates running.
pub open spec fn cascade_complete(
    before: Seq<WorkflowStatus>,
    after: Seq<WorkflowStatus>,
    children: Seq<Vec<usize>>,
    policies: Seq<ChildCloseAction>,
) -> bool {
    forall|i: int, j: int|
        0 <= i < after.len() && before[i] == WorkflowStatus::Running && after[i] != WorkflowStatus::Running
            && 0 <= j < children[i]@.len() && policies[children[i]@[j] as int] == ChildCloseAction::Terminate
            ==> after[children[i]@[j] as int] != WorkflowStatus::Running
}

/// A cascade only closes running workflows, and closes them as terminated.
pub open spec fn cascade_monotone(before: Seq<WorkflowStatus>, after: Seq<WorkflowStatus>) -> bool {
    &&& after.len() == before.len()
    &&& forall|i: int| 0 <= i < before.len() && before[i] != WorkflowStatus::Running ==> after[i] == before[i]
    &&& forall|i: int| 0 <= i < before.len() && after[i] != before[i] ==> after[i] == WorkflowStatus::Terminated
}

/// What a cascade effect says holds: a closed workflow was running, is to be terminated by
/// its parent and now is; a cancel request went to a running workflow whose policy asks for
/// one, and that stays running.
pub open spec fn effect_holds(
    effect: CloseEffect,
    before: Seq<WorkflowStatus>,
    after: Seq<WorkflowStatus>,
    policies: Seq<ChildCloseAction>,
) -> bool {
    match effect {
        CloseEffect::Closed { index, status } => {
            &&& index < after.len()
            &&& status == WorkflowStatus::Terminated
            &&& policies[index as int] == ChildCloseAction::Terminate
            &&& before[index as int] == WorkflowStatus::Running
            &&& after[index as int] == WorkflowStatus::Terminated
        },
        CloseEffect::CancelRequested { index } => {
            &&& index < after.len()
            &&& policies[index as int] == ChildCloseAction::RequestCancel
            &&& before[index as int] == WorkflowStatus::Running
            &&& after[index as int] == WorkflowStatus::Running
        },
    }
}

/// Applies the parent close policies of the running children of `parent`, in order: a
/// child to cancel gets a cancel request; a child to terminate is closed as terminated,
/// and so in turn are its own children to terminate.
fn close_children(
    statuses: &mut Vec<WorkflowStatus>,
    children: &Vec<Vec<usize>>,
    policies: &Vec<ChildCloseAction>,
    parent: usize,
    effects: &mut Vec<CloseEffect>,
    fuel: usize,
)
    requires
        tree_ok(children@, old(statuses)@.len()),
        policies@.len() == old(statuses)@.len(),
        parent < old(statuses)@.len(),
        running_count(old(statuses)@) <= fuel,
    ensures
        cascade_monotone(old(statuses)@, final(statuses)@),
        cascade_complete(old(statuses)@, final(statuses)@, children@, policies@),
        forall|j: int| 0 <= j < children@[parent as int]@.len()
            && policies@[children@[parent as int]@[j] as int] == ChildCloseAction::Terminate
            ==> final(statuses)@[children@[parent as int]@[j] as int] != WorkflowStatus::Running,
        forall|i: int| 0 <= i < old(statuses)@.len() && policies@[i] != ChildCloseAction::Terminate
            ==> final(statuses)@[i] == old(statuses)@[i],
        final(effects)@.len() >= old(effects)@.len(),
        forall|k: int| 0 <= k < old(effects)@.len() ==> final(effects)@[k] == old(effects)@[k],
        forall|k: int| old(effects)@.len() <= k < final(effects)@.len()
            ==> effect_holds(#[trigger] final(effects)@[k], old(statuses)@, final(statuses)@, policies@),
    decreases fuel,
{
    let ghost start = statuses@;
    let kids = &children[parent];
    let mut j: usize = 0;
    while j < kids.len()
        invariant
            tree_ok(children@, start.len()),
            policies@.len() == start.len(),
            *kids == children@[parent as int],
            parent < start.len(),
            j <= kids.len(),
            running_count(statuses@) <= fuel,
            cascade_monotone(start, statuses@),
            cascade_complete(start, statuses@, children@, policies@),
            forall|m: int| 0 <= m < j && policies@[kids@[m] as int] == ChildCloseAction::Terminate
                ==> statuses@[kids@[m] as int] != WorkflowStatus::Running,
            forall|i: int| 0 <= i < start.len() && policies@[i] != ChildCloseAction::Terminate
                ==> statuses@[i] == start[i],
            effects@.len() >= old(effects)@.len(),
            forall|k: int| 0 <= k < old(effects)@.len() ==> effects@[k] == old(effects)@[k],
            forall|k: int| old(effects)@.len() <= k < effects@.len()
                ==> effect_holds(#[trigger] effects@[k], start, statuses@, policies@),
        decreases kids.len() - j,
    {
        let child = kids[j];
        assert(child < start.len());
        if statuses[child] == WorkflowStatus::Running {
            match policies[child] {
                ChildCloseAction::RequestCancel => {
                    let ghost prior = effects@;
                    effects.push(CloseEffect::CancelRequested { index: child });
                    assert forall|k: int| old(effects)@.len() <= k < effects@.len()
                        implies effect_holds(#[trigger] effects@[k], start, statuses@, policies@) by {
                        if k < prior.len() {
                            assert(effects@[k] == prior[k]);
                        }
                    }
                },
                ChildCloseAction::Terminate => {
                    let ghost before = statuses@;
                    proof {
                        lemma_close_running(before, child as int, WorkflowStatus::Terminated);
                    }
                    statuses.set(child, WorkflowStatus::Terminated);
                    let ghost prior = effects@;
                    effects.push(CloseEffect::Closed { index: child, status: WorkflowStatus::Terminated });
                    let ghost middle = statuses@;
                    let ghost pushed = effects@;
                    assert(fuel > 0);
                    close_children(statuses, children, policies, child, effects, fuel - 1);
                    let ghost after = statuses@;
                    proof {
                        lemma_monotone_count(middle, after);
                    }
                    assert forall|i: int, m: int|
                        0 <= i < after.len() && start[i] == WorkflowStatus::Running
                            && after[i] != WorkflowStatus::Running
                            && 0 <= m < children@[i]@.len()
                            && policies@[children@[i]@[m] as int] == ChildCloseAction::Terminate
                        implies after[children@[i]@[m] as int] != WorkflowStatus::Running by {
                        let c = children@[i]@[m] as int;
                        if middle[i] == WorkflowStatus::Running {
                        } else if before[i] != WorkflowStatus::Running {
                            assert(middle[c] != WorkflowStatus::Running);
                        } else {
                            assert(i == child);
                        }
                    }
                    assert forall|k: int| old(effects)@.len() <= k < effects@.len()
                        implies effect_holds(#[trigger] effects@[k], start, after, policies@) by {
                        if k < prior.len() {
                            assert(effects@[k] == prior[k]);
                            assert(pushed[k] == prior[k]);
                            match prior[k] {
                                CloseEffect::Closed { index, .. } => {
                                    assert(before[index as int] == WorkflowStatus::Terminated);
                                },
                                CloseEffect::CancelRequested { index } => {
                                    assert(before[index as int] == WorkflowStatus::Running);
                                },
                            }
                        } else if k == prior.len() {
                            assert(effects@[k] == pushed[k]);
                        } else {
                            let e = effects@[k];
                            match e {
                                CloseEffect::Closed { index, .. } => {
                                    assert(middle[index as int] == WorkflowStatus::Running);
                                },
                                CloseEffect::CancelRequested { index } => {
                                    assert(middle[index as int] == WorkflowStatus::Running);
                                },
                            }
                        }
                    }
                    assert forall|m: int| 0 <= m <= j && policies@[kids@[m] as int] == ChildCloseAction::Terminate
                        implies after[kids@[m] as int] != WorkflowStatus::Running by {
                        if m < j {
                            assert(before[kids@[m] as int] != WorkflowStatus::Running);
                        } else {
                            assert(middle[child as int] != WorkflowStatus::Running);
                        }
                    }
                },
                ChildCloseAction::Abandon => {},
            }
        }
        j = j + 1;
    }
}

/// Closes the workflow at `root` with `status` and applies its children's parent close
/// policies through the whole tree. `children` lists each workflow's children, `policies`
/// each workflow's parent close policy. Returns what happened, in order; the root's own
/// close comes first.
pub fn close_workflow_tree(
    statuses: &mut Vec<WorkflowStatus>,
    children: &Vec<Vec<usize>>,
    policies: &Vec<ChildCloseAction>,
    root: usize,
    status: WorkflowStatus,
) -> (effects: Vec<CloseEffect>)
    requires
        tree_ok(children@, old(statuses)@.len()),
        policies@.len() == old(statuses)@.len(),
        root < old(statuses)@.len(),
        status != WorkflowStatus::Running,
    ensures
        final(statuses)@.len() == old(statuses)@.len(),
        final(statuses)@[root as int] == status,
        forall|i: int| 0 <= i < old(statuses)@.len() && i != root
            && old(statuses)@[i] != WorkflowStatus::Running ==> final(statuses)@[i] == old(statuses)@[i],
        forall|i: int| 0 <= i < old(statuses)@.len() && i != root
            && final(statuses)@[i] != old(statuses)@[i] ==> final(statuses)@[i] == WorkflowStatus::Terminated,
        forall|j: int| 0 <= j < children@[root as int]@.len()
            && policies@[children@[root as int]@[j] as int] == ChildCloseAction::Terminate
            ==> final(statuses)@[children@[root as int]@[j] as int] != WorkflowStatus::Running,
        forall|i: int| 0 <= i < old(statuses)@.len() && i != root
            && policies@[i] != ChildCloseAction::Terminate ==> final(statuses)@[i] == old(statuses)@[i],
        cascade_complete(old(statuses)@, final(statuses)@, children@, policies@),
        effects@.len() >= 1,
        effects@[0] == (CloseEffect::Closed { index: root, status }),
        forall|k: int| 1 <= k < effects@.len()
            ==> effect_holds(#[trigger] effects@[k], old(statuses)@, final(statuses)@, policies@),
{
    let ghost start = statuses@;
    statuses.set(root, status);
    let ghost middle = statuses@;
    let mut effects: Vec<CloseEffect> = Vec::new();
    effects.push(CloseEffect::Closed { index: root, status });
    proof {
        lemma_running_count_bound(statuses@);
    }
    close_children(statuses, children, policies, root, &mut effects, statuses.len());
    proof {
        let after = statuses@;
        assert forall|i: int, m: int|
            0 <= i < after.len() && start[i] == WorkflowStatus::Running
                && after[i] != WorkflowStatus::Running
                && 0 <= m < children@[i]@.len()
                && policies@[children@[i]@[m] as int] == ChildCloseAction::Terminate
            implies after[children@[i]@[m] as int] != WorkflowStatus::Running by {
            if i != root && middle[i] != WorkflowStatus::Running {
                assert(middle[i] == start[i]);
            }
        }
        assert forall|k: int| 1 <= k < effects@.len()
            implies effect_holds(#[trigger] effects@[k], start, after, policies@) by {
            match effects@[k] {
                CloseEffect::Closed { index, .. } => {
                    assert(middle[index as int] == WorkflowStatus::Running);
                },
                CloseEffect::CancelRequested { index } => {
                    assert(middle[index as int] == WorkflowStatus::Running);
                },
            }
        }
    }
    effects
}

/// Position `a` comes before position `b` when its time (an `f64` bit pattern, in the total
/// order of `f64`) is earlier, or equal and `a` is the earlier position.
pub open spec fn earlier(times: Seq<u64>, a: usize, b: usize) -> bool {
    let ta = spec_ordered_f64_bits(times[a as int]);
    let tb = spec_ordered_f64_bits(times[b as int]);
    ta < tb || (ta == tb && a < b)
}

/// The order in which a poll considers its candidates: by the time each became available,
/// earliest first, candidates with equal times in their scan order (a stable sort).
pub open spec fn is_poll_order(times: Seq<u64>, order: Seq<usize>) -> bool {
    &&& order.len() == times.len()
    &&& forall|i: int| 0 <= i < order.len() ==> order[i] < times.len()
    &&& forall|i: int, j: int| 0 <= i < j < order.len() ==> earlier(times, order[i], order[j])
}

pub fn poll_order(times: &[u64]) -> (order: Vec<usize>)
    ensures
        is_poll_order(times@, order@),
{
    let mut order: Vec<usize> = Vec::new();
    let mut i: usize = 0;
    while i < times.len()
        invariant
            i <= times.len(),
            order@.len() == i,
            forall|k: int| 0 <= k < order@.len() ==> order@[k] < i,
            forall|a: int, b: int| 0 <= a < b < order@.len() ==> earlier(times@, order@[a], order@[b]),
        decreases times.len() - i,
    {
        let key = ordered_f64_bits(times[i]);
        let mut p: usize = 0;
        while p < order.len() && ordered_f64_bits(times[order[p]]) <= key
            invariant
                i < times.len(),
                p <= order@.len(),
                order@.len() == i,
                forall|k: int| 0 <= k < order@.len() ==> order@[k] < i,
                key == spec_ordered_f64_bits(times@[i as int]),
                forall|q: int| 0 <= q < p ==> spec_ordered_f64_bits(times@[order@[q] as int]) <= key,
            decreases order@.len() - p,
        {
            p = p + 1;
        }
        proof {
            if p < order@.len() {
                assert(spec_ordered_f64_bits(times@[order@[p as int] as int]) > key);
                assert forall|q: int| p <= q < order@.len() implies spec_ordered_f64_bits(
                    times@[order@[q] as int],
                ) > key by {
                    if q > p {
                        assert(earlier(times@, order@[p as int], order@[q]));
                    }
                }
            }
        }
        let ghost before = order@;
        order.insert(p, i);
        proof {
            assert forall|a: int, b: int| 0 <= a < b < order@.len() implies earlier(
                times@,
                order@[a],
                order@[b],
            ) by {
                if b < p {
                    assert(order@[a] == before[a] && order@[b] == before[b]);
                } else if b == p {
                    assert(order@[a] == before[a]);
                } else if a == p {
                    assert(order@[b] == before[b - 1]);
                } else if a < p {
                    assert(order@[a] == before[a] && order@[b] == before[b - 1]);
                } else {
                    assert(order@[a] == before[a - 1] && order@[b] == before[b - 1]);
                }
            }
        }
        i = i + 1;
    }
    order
}

proof fn lemma_poll_order_covers(times: Seq<u64>, order: Seq<usize>, v: int)
    requires
        is_poll_order(times, order),
        0 <= v < times.len(),
    ensures
        exists|p: int| 0 <= p < order.len() && order[p] == v,
{
    let n = times.len() as int;
    let values = order.map_values(|x: usize| x as int);
    assert(values.no_duplicates()) by {
        assert forall|i: int, j: int| 0 <= i < values.len() && 0 <= j < values.len() && i != j
            implies values[i] != values[j] by {
            if i < j {
                assert(earlier(times, order[i], order[j]));
            } else {
                assert(earlier(times, order[j], order[i]));
            }
        }
    }
    values.unique_seq_to_set();
    vstd::set_lib::lemma_int_range(0, n);
    let range = vstd::set_lib::set_int_range(0, n);
    assert(values.to_set().subset_of(range)) by {
        assert forall|x: int| values.to_set().contains(x) implies range.contains(x) by {
            let i = choose|i: int| 0 <= i < values.len() && values[i] == x;
            assert(order[i] < n);
        }
    }
    vstd::set_lib::lemma_set_subset_finite(range, values.to_set());
    vstd::set_lib::lemma_subset_equality(values.to_set(), range);
    assert(range.contains(v));
    assert(values.to_set().contains(v));
    let p = choose|p: int| 0 <= p < values.len() && values[p] == v;
    assert(order[p] == v);
}

proof fn lemma_poll_orders_agree_below(times: Seq<u64>, a: Seq<usize>, b: Seq<usize>, k: int)
    requires
        is_poll_order(times, a),
        is_poll_order(times, b),
        0 <= k <= a.len(),
    ensures
        forall|i: int| 0 <= i < k ==> a[i] == b[i],
    decreases k,
{
    if k > 0 {
        lemma_poll_orders_agree_below(times, a, b, k - 1);
        let i = k - 1;
        let x = a[i];
        let y = b[i];
        if x != y {
            if earlier(times, x, y) {
                lemma_poll_order_covers(times, b, x as int);
                let p = choose|p: int| 0 <= p < b.len() && b[p] == x;
                if p < i {
                    assert(a[p] == b[p]);
                    assert(earlier(times, a[p], a[i]));
                } else if p > i {
                    assert(earlier(times, b[i], b[p]));
                }
            } else {
                lemma_poll_order_covers(times, a, y as int);
                let p = choose|p: int| 0 <= p < a.len() && a[p] == y;
                if p < i {
                    assert(a[p] == b[p]);
                    assert(earlier(times, b[p], b[i]));
                } else if p > i {
                    assert(earlier(times, a[i], a[p]));
                }
            }
        }
    }
}

/// The poll order is determined by the times alone: any two orders that meet its
/// definition are the same, so `poll_order` has exactly one correct answer.
pub proof fn law_poll_order_is_unique(times: Seq<u64>, a: Seq<usize>, b: Seq<usize>)
    requires
        is_poll_order(times, a),
        is_poll_order(times, b),
    ensures
        a == b,
{
    lemma_poll_orders_agree_below(times, a, b, a.len() as int);
    assert(a =~= b);
}

} // verus!
