//! Task model: the states a task moves through, its result, the policies and
//! edges of the task graph, and the counts the graph and scheduler report.

use vstd::prelude::*;
use crate::text::owned;
use crate::automation::{pairs_view, with_value, set_value};
use crate::clock::unix_millis;
use crate::ident::new_id;
use crate::bookmarks::{copy_opt, opt_text};

verus! {

/// Task execution status
#[derive(Debug, Clone, Copy, PartialEq, Eq, Structural)]
pub enum TaskStatus {
    /// Task is waiting to be executed
    Pending,
    /// Task is waiting for dependencies to complete
    Blocked,
    /// Task is currently running
    Running,
    /// Task completed successfully
    Completed,
    /// Task failed with an error
    Failed,
    /// Task was cancelled
    Cancelled,
    /// Task was skipped (due to dependency failure)
    Skipped,
}

/// A status as it is displayed, with its symbol.
pub open spec fn status_text(s: TaskStatus) -> Seq<char> {
    match s {
        TaskStatus::Pending => "\u{23f3} Pending"@,
        TaskStatus::Blocked => "\u{1f512} Blocked"@,
        TaskStatus::Running => "\u{25b6}\u{fe0f} Running"@,
        TaskStatus::Completed => "\u{2705} Completed"@,
        TaskStatus::Failed => "\u{274c} Failed"@,
        TaskStatus::Cancelled => "\u{23f9}\u{fe0f} Cancelled"@,
        TaskStatus::Skipped => "\u{23ed}\u{fe0f} Skipped"@,
    }
}

/// The terminal states: no transition leaves them.
pub open spec fn terminal_status(s: TaskStatus) -> bool {
    s is Completed || s is Failed || s is Cancelled || s is Skipped
}

impl TaskStatus {
    /// Check if the task is in a terminal state
    pub fn is_terminal(&self) -> (r: bool)
        ensures
            r == terminal_status(*self),
    {
        match self {
            TaskStatus::Completed | TaskStatus::Failed | TaskStatus::Cancelled | TaskStatus::Skipped => true,
            _ => false,
        }
    }

    /// Check if the task is runnable
    pub fn is_runnable(&self) -> (r: bool)
        ensures
            r == (*self is Pending),
    {
        match self {
            TaskStatus::Pending => true,
            _ => false,
        }
    }

    /// Check if the task is active (running or blocked)
    pub fn is_active(&self) -> (r: bool)
        ensures
            r == (*self is Running || *self is Blocked),
    {
        match self {
            TaskStatus::Running | TaskStatus::Blocked => true,
            _ => false,
        }
    }

    /// The status as it is displayed, with its symbol
    pub fn display_text(&self) -> (r: &'static str)
        ensures
            r@ == status_text(*self),
    {
        match self {
            TaskStatus::Pending => "\u{23f3} Pending",
            TaskStatus::Blocked => "\u{1f512} Blocked",
            TaskStatus::Running => "\u{25b6}\u{fe0f} Running",
            TaskStatus::Completed => "\u{2705} Completed",
            TaskStatus::Failed => "\u{274c} Failed",
            TaskStatus::Cancelled => "\u{23f9}\u{fe0f} Cancelled",
            TaskStatus::Skipped => "\u{23ed}\u{fe0f} Skipped",
        }
    }
}

/// A status is never both terminal and active, and only `Pending` is runnable:
/// runnable, active and terminal statuses are three disjoint classes.
pub proof fn lemma_status_classes(s: TaskStatus)
    ensures
        !(terminal_status(s) && (s is Running || s is Blocked)),
        s is Pending ==> !terminal_status(s) && !(s is Running || s is Blocked),
        terminal_status(s) || s is Pending || s is Running || s is Blocked,
{
}

/// A result as plain values: exit code, output, error output, log path and
/// duration.
pub open spec fn result_view(r: TaskResult) -> (i32, Seq<char>, Seq<char>, Option<Seq<char>>, u64) {
    (r.exit_code, r.stdout@, r.stderr@, opt_text(r.log_path), r.duration_ms)
}

/// Task execution result
#[derive(Debug, Clone)]
pub struct TaskResult {
    /// Exit code (0 = success)
    pub exit_code: i32,
    /// Stdout output (possibly truncated)
    pub stdout: String,
    /// Stderr output (possibly truncated)
    pub stderr: String,
    /// Full output log path
    pub log_path: Option<String>,
    /// Execution duration in milliseconds
    pub duration_ms: u64,
}

impl TaskResult {
    /// Create a successful result
    pub fn success(stdout: String, duration_ms: u64) -> (r: Self)
        ensures
            r.exit_code == 0,
            r.stdout@ == stdout@,
            r.stderr@ == Seq::<char>::empty(),
            r.log_path is None,
            r.duration_ms == duration_ms,
    {
        TaskResult { exit_code: 0, stdout, stderr: String::new(), log_path: None, duration_ms }
    }

    /// Create a failed result
    pub fn failure(exit_code: i32, stderr: String, duration_ms: u64) -> (r: Self)
        ensures
            r.exit_code == exit_code,
            r.stdout@ == Seq::<char>::empty(),
            r.stderr@ == stderr@,
            r.log_path is None,
            r.duration_ms == duration_ms,
    {
        TaskResult { exit_code, stdout: String::new(), stderr, log_path: None, duration_ms }
    }

    /// Check if the result indicates success
    pub fn is_success(&self) -> (r: bool)
        ensures
            r == (self.exit_code == 0),
    {
        self.exit_code == 0
    }

    /// A copy of the result
    pub fn copied(&self) -> (r: Self)
        ensures
            result_view(r) == result_view(*self),
    {
        TaskResult {
            exit_code: self.exit_code,
            stdout: owned(self.stdout.as_str()),
            stderr: owned(self.stderr.as_str()),
            log_path: copy_opt(&self.log_path),
            duration_ms: self.duration_ms,
        }
    }

    /// The status a task takes on when it finishes with this result
    pub fn finished_status(&self) -> (r: TaskStatus)
        ensures
            r == (if self.exit_code == 0 { TaskStatus::Completed } else { TaskStatus::Failed }),
    {
        if self.is_success() { TaskStatus::Completed } else { TaskStatus::Failed }
    }
}

/// Error propagation policy for task dependencies
#[derive(Debug, Clone, Copy, PartialEq, Eq, Structural)]
pub enum ErrorPolicy {
    /// Stop all dependent tasks on failure
    StopOnError,
    /// Continue with other tasks, skip dependents
    ContinueOnError,
    /// Retry the failed task N times before stopping
    RetryThenStop { max_retries: u32 },
}

impl Default for ErrorPolicy {
    fn default() -> (r: Self)
        ensures
            r == ErrorPolicy::StopOnError,
    {
        ErrorPolicy::StopOnError
    }
}

/// Edge type in the task graph (dependency relationship)
#[derive(Debug, Clone, Copy, PartialEq, Eq, Structural)]
pub enum TaskEdge {
    /// Standard dependency (target waits for source)
    DependsOn,
    /// Soft dependency (target can proceed even if source fails)
    SoftDependsOn,
    /// Parent-child relationship (for tree visualization)
    ParentOf,
}

impl Default for TaskEdge {
    fn default() -> (r: Self)
        ensures
            r == TaskEdge::DependsOn,
    {
        TaskEdge::DependsOn
    }
}

impl TaskEdge {
    /// The relationship in words
    pub fn display_text(&self) -> (r: &'static str)
        ensures
            r@ == match *self {
                TaskEdge::DependsOn => "depends on"@,
                TaskEdge::SoftDependsOn => "soft depends on"@,
                TaskEdge::ParentOf => "parent of"@,
            },
    {
        match self {
            TaskEdge::DependsOn => "depends on",
            TaskEdge::SoftDependsOn => "soft depends on",
            TaskEdge::ParentOf => "parent of",
        }
    }
}

/// Task completion statistics
#[derive(Debug, Clone, Copy, PartialEq, Eq, Structural)]
pub struct TaskStatistics {
    /// Total number of tasks
    pub total: usize,
    /// Pending tasks
    pub pending: usize,
    /// Blocked tasks
    pub blocked: usize,
    /// Running tasks
    pub running: usize,
    /// Completed tasks
    pub completed: usize,
    /// Failed tasks
    pub failed: usize,
    /// Cancelled tasks
    pub cancelled: usize,
    /// Skipped tasks
    pub skipped: usize,
}

/// How many of `s` equal `st`.
pub open spec fn count_status(s: Seq<TaskStatus>, st: TaskStatus) -> nat
    decreases s.len(),
{
    if s.len() == 0 {
        0
    } else {
        count_status(s.drop_last(), st) + if s.last() == st { 1nat } else { 0nat }
    }
}

/// The statistics of a graph whose tasks have the statuses `s`.
pub open spec fn statistics_spec(s: Seq<TaskStatus>) -> TaskStatistics {
    TaskStatistics {
        total: s.len() as usize,
        pending: count_status(s, TaskStatus::Pending) as usize,
        blocked: count_status(s, TaskStatus::Blocked) as usize,
        running: count_status(s, TaskStatus::Running) as usize,
        completed: count_status(s, TaskStatus::Completed) as usize,
        failed: count_status(s, TaskStatus::Failed) as usize,
        cancelled: count_status(s, TaskStatus::Cancelled) as usize,
        skipped: count_status(s, TaskStatus::Skipped) as usize,
    }
}

/// Each count is at most the number of statuses, and the seven counts add up
/// to it.
pub proof fn lemma_counts_partition(s: Seq<TaskStatus>)
    ensures
        count_status(s, TaskStatus::Pending) + count_status(s, TaskStatus::Blocked)
            + count_status(s, TaskStatus::Running) + count_status(s, TaskStatus::Completed)
            + count_status(s, TaskStatus::Failed) + count_status(s, TaskStatus::Cancelled)
            + count_status(s, TaskStatus::Skipped) == s.len(),
    decreases s.len(),
{
    if s.len() > 0 {
        lemma_counts_partition(s.drop_last());
    }
}

impl Default for TaskStatistics {
    fn default() -> (r: Self)
        ensures
            r == statistics_spec(Seq::<TaskStatus>::empty()),
    {
        TaskStatistics {
            total: 0, pending: 0, blocked: 0, running: 0, completed: 0, failed: 0, cancelled: 0,
            skipped: 0,
        }
    }
}

impl TaskStatistics {
    /// Count the tasks of each status
    pub fn of_statuses(statuses: &Vec<TaskStatus>) -> (r: TaskStatistics)
        ensures
            r == statistics_spec(statuses@),
    {
        let mut r = TaskStatistics::default();
        let mut i: usize = 0;
        while i < statuses.len()
            invariant
                i <= statuses.len(),
                r == statistics_spec(statuses@.subrange(0, i as int)),
            decreases statuses.len() - i,
        {
            let ghost pre = statuses@.subrange(0, i as int);
            let ghost next = statuses@.subrange(0, i + 1);
            assert(next.drop_last() =~= pre);
            proof {
                lemma_counts_partition(pre);
            }
            r.total = r.total + 1;
            match statuses[i] {
                TaskStatus::Pending => r.pending = r.pending + 1,
                TaskStatus::Blocked => r.blocked = r.blocked + 1,
                TaskStatus::Running => r.running = r.running + 1,
                TaskStatus::Completed => r.completed = r.completed + 1,
                TaskStatus::Failed => r.failed = r.failed + 1,
                TaskStatus::Cancelled => r.cancelled = r.cancelled + 1,
                TaskStatus::Skipped => r.skipped = r.skipped + 1,
            }
            i = i + 1;
        }
        assert(statuses@.subrange(0, statuses.len() as int) =~= statuses@);
        r
    }

    /// Check if all tasks are done
    pub fn is_done(&self) -> (r: bool)
        ensures
            r == (self.pending == 0 && self.blocked == 0 && self.running == 0),
    {
        self.pending == 0 && self.blocked == 0 && self.running == 0
    }

    /// Check if there are any failures
    pub fn has_failures(&self) -> (r: bool)
        ensures
            r == (self.failed > 0),
    {
        self.failed > 0
    }
}

/// A graph is done exactly when every one of its tasks is terminal.
pub proof fn lemma_done_iff_all_terminal(s: Seq<TaskStatus>)
    ensures
        (count_status(s, TaskStatus::Pending) == 0 && count_status(s, TaskStatus::Blocked) == 0
            && count_status(s, TaskStatus::Running) == 0) <==> (forall|i: int|
            0 <= i < s.len() ==> terminal_status(#[trigger] s[i])),
    decreases s.len(),
{
    if s.len() > 0 {
        lemma_done_iff_all_terminal(s.drop_last());
        assert forall|i: int| 0 <= i < s.len() - 1 implies #[trigger] s.drop_last()[i] == s[i] by {}
        if (forall|i: int| 0 <= i < s.len() ==> terminal_status(#[trigger] s[i])) {
            assert(terminal_status(s[s.len() - 1]));
            assert forall|i: int| 0 <= i < s.drop_last().len() implies terminal_status(
                #[trigger] s.drop_last()[i],
            ) by {
                assert(s.drop_last()[i] == s[i]);
            }
        }
        if count_status(s, TaskStatus::Pending) == 0 && count_status(s, TaskStatus::Blocked) == 0
            && count_status(s, TaskStatus::Running) == 0 {
            assert forall|i: int| 0 <= i < s.len() implies terminal_status(#[trigger] s[i]) by {
                if i < s.len() - 1 {
                    assert(s.drop_last()[i] == s[i]);
                }
            }
        }
    }
}

/// A task of the task graph: what to run, where, and how far it has got.
/// Times are milliseconds since the Unix epoch.
#[derive(Debug, Clone)]
pub struct TaskNode {
    /// Unique task identifier
    pub id: u128,
    /// Human-readable task name
    pub name: String,
    /// Command to execute
    pub command: String,
    /// Arguments
    pub args: Vec<String>,
    /// Working directory
    pub working_dir: String,
    /// Environment variables, by name
    pub env: Vec<(String, String)>,
    /// Current status
    pub status: TaskStatus,
    /// Execution result (if completed)
    pub result: Option<TaskResult>,
    /// Error policy
    pub error_policy: ErrorPolicy,
    /// Associated PTY session ID (when running)
    pub pty_id: Option<u128>,
    /// Parent task ID (for tree structure)
    pub parent_id: Option<u128>,
    /// Creation time
    pub created_at: i64,
    /// Start time (when execution began)
    pub started_at: Option<i64>,
    /// Completion time
    pub completed_at: Option<i64>,
    /// Number of retry attempts
    pub retry_count: u32,
    /// User-defined metadata, by key
    pub metadata: Vec<(String, String)>,
}

/// Whether `b` is `a` with only its status and completion time changed.
pub open spec fn only_status_changed(a: TaskNode, b: TaskNode) -> bool {
    &&& b.id == a.id && b.name == a.name && b.command == a.command && b.args == a.args
    &&& b.working_dir == a.working_dir && b.env == a.env && b.result == a.result
    &&& b.error_policy == a.error_policy && b.pty_id == a.pty_id && b.parent_id == a.parent_id
    &&& b.created_at == a.created_at && b.started_at == a.started_at
    &&& b.retry_count == a.retry_count && b.metadata == a.metadata
}

/// The command with its arguments, separated by spaces.
pub open spec fn command_line(command: Seq<char>, args: Seq<Seq<char>>) -> Seq<char>
    decreases args.len(),
{
    if args.len() == 0 {
        command
    } else {
        command_line(command, args.drop_last()) + " "@ + args.last()
    }
}

impl TaskNode {
    /// A pending task with the given identity, created at `now`, with no
    /// arguments, environment or metadata and the default error policy.
    pub fn with_identity(id: u128, name: &str, command: &str, working_dir: String, now: i64) -> (t: Self)
        ensures
            t.id == id,
            t.name@ == name@,
            t.command@ == command@,
            t.args@.len() == 0,
            t.working_dir@ == working_dir@,
            t.env@.len() == 0,
            t.status == TaskStatus::Pending,
            t.result is None,
            t.error_policy == ErrorPolicy::StopOnError,
            t.pty_id is None,
            t.parent_id is None,
            t.created_at == now,
            t.started_at is None,
            t.completed_at is None,
            t.retry_count == 0,
            t.metadata@.len() == 0,
    {
        TaskNode {
            id,
            name: owned(name),
            command: owned(command),
            args: Vec::new(),
            working_dir,
            env: Vec::new(),
            status: TaskStatus::Pending,
            result: None,
            error_policy: ErrorPolicy::StopOnError,
            pty_id: None,
            parent_id: None,
            created_at: now,
            started_at: None,
            completed_at: None,
            retry_count: 0,
            metadata: Vec::new(),
        }
    }

    /// Create a new task with a fresh identifier, created now, to run in
    /// `working_dir`
    pub fn new(name: &str, command: &str, working_dir: String) -> (t: Self)
        ensures
            t.name@ == name@,
            t.command@ == command@,
            t.args@.len() == 0,
            t.working_dir@ == working_dir@,
            t.env@.len() == 0,
            t.status == TaskStatus::Pending,
            t.result is None,
            t.error_policy == ErrorPolicy::StopOnError,
            t.pty_id is None,
            t.parent_id is None,
            t.started_at is None,
            t.completed_at is None,
            t.retry_count == 0,
            t.metadata@.len() == 0,
    {
        Self::with_identity(new_id(), name, command, working_dir, unix_millis())
    }

    /// Builder: set arguments
    pub fn with_args(self, args: Vec<String>) -> (t: Self)
        ensures
            t == (TaskNode { args, ..self }),
    {
        TaskNode { args, ..self }
    }

    /// Builder: set working directory
    pub fn with_working_dir(self, dir: String) -> (t: Self)
        ensures
            t == (TaskNode { working_dir: dir, ..self }),
    {
        TaskNode { working_dir: dir, ..self }
    }

    /// Builder: set an environment variable, replacing its value if it is set
    pub fn with_env(self, key: &str, value: &str) -> (t: Self)
        ensures
            pairs_view(t.env@) == with_value(pairs_view(self.env@), key@, value@),
            t == (TaskNode { env: t.env, ..self }),
    {
        let mut t = self;
        set_value(&mut t.env, key, value);
        t
    }

    /// Builder: set error policy
    pub fn with_error_policy(self, policy: ErrorPolicy) -> (t: Self)
        ensures
            t == (TaskNode { error_policy: policy, ..self }),
    {
        TaskNode { error_policy: policy, ..self }
    }

    /// Builder: set parent task
    pub fn with_parent(self, parent_id: u128) -> (t: Self)
        ensures
            t == (TaskNode { parent_id: Some(parent_id), ..self }),
    {
        TaskNode { parent_id: Some(parent_id), ..self }
    }

    /// Builder: set a metadata entry, replacing its value if it is set
    pub fn with_metadata(self, key: &str, value: &str) -> (t: Self)
        ensures
            pairs_view(t.metadata@) == with_value(pairs_view(self.metadata@), key@, value@),
            t == (TaskNode { metadata: t.metadata, ..self }),
    {
        let mut t = self;
        set_value(&mut t.metadata, key, value);
        t
    }

    /// Mark task as running on a PTY, from `now`
    pub fn start_at(&mut self, pty_id: u128, now: i64)
        ensures
            *final(self) == (TaskNode { status: TaskStatus::Running, pty_id: Some(pty_id), started_at: Some(now), ..*old(self) }),
    {
        self.status = TaskStatus::Running;
        self.pty_id = Some(pty_id);
        self.started_at = Some(now);
    }

    /// Mark task as running on a PTY, from now
    pub fn start(&mut self, pty_id: u128)
        ensures
            final(self).started_at is Some,
            *final(self) == (TaskNode { status: TaskStatus::Running, pty_id: Some(pty_id), started_at: final(self).started_at, ..*old(self) }),
    {
        self.start_at(pty_id, unix_millis());
    }

    /// Mark task as finished with a result at `now`: completed when it
    /// succeeded, failed otherwise
    pub fn complete_at(&mut self, result: TaskResult, now: i64)
        ensures
            *final(self) == (TaskNode {
                status: if result.exit_code == 0 { TaskStatus::Completed } else { TaskStatus::Failed },
                result: Some(result),
                completed_at: Some(now),
                ..*old(self)
            }),
    {
        self.status = result.finished_status();
        self.result = Some(result);
        self.completed_at = Some(now);
    }

    /// Mark task as finished with a result, now
    pub fn complete(&mut self, result: TaskResult)
        ensures
            final(self).completed_at is Some,
            *final(self) == (TaskNode {
                status: if result.exit_code == 0 { TaskStatus::Completed } else { TaskStatus::Failed },
                result: Some(result),
                completed_at: final(self).completed_at,
                ..*old(self)
            }),
    {
        self.complete_at(result, unix_millis());
    }

    /// Mark task as cancelled at `now`
    pub fn cancel_at(&mut self, now: i64)
        ensures
            *final(self) == (TaskNode { status: TaskStatus::Cancelled, completed_at: Some(now), ..*old(self) }),
    {
        self.status = TaskStatus::Cancelled;
        self.completed_at = Some(now);
    }

    /// Mark task as cancelled, now
    pub fn cancel(&mut self)
        ensures
            final(self).status == TaskStatus::Cancelled,
            final(self).completed_at is Some,
            only_status_changed(*old(self), *final(self)),
    {
        self.cancel_at(unix_millis());
    }

    /// Mark task as skipped at `now`
    pub fn skip_at(&mut self, now: i64)
        ensures
            *final(self) == (TaskNode { status: TaskStatus::Skipped, completed_at: Some(now), ..*old(self) }),
    {
        self.status = TaskStatus::Skipped;
        self.completed_at = Some(now);
    }

    /// Mark task as skipped, now
    pub fn skip(&mut self)
        ensures
            final(self).status == TaskStatus::Skipped,
            final(self).completed_at is Some,
            only_status_changed(*old(self), *final(self)),
    {
        self.skip_at(unix_millis());
    }

    /// Mark task as blocked
    pub fn block(&mut self)
        ensures
            *final(self) == (TaskNode { status: TaskStatus::Blocked, ..*old(self) }),
    {
        self.status = TaskStatus::Blocked;
    }

    /// Unblock task: a blocked task becomes pending, any other stays
    pub fn unblock(&mut self)
        ensures
            *final(self) == if old(self).status == TaskStatus::Blocked {
                TaskNode { status: TaskStatus::Pending, ..*old(self) }
            } else {
                *old(self)
            },
    {
        if self.status == TaskStatus::Blocked {
            self.status = TaskStatus::Pending;
        }
    }

    /// Execution time in milliseconds at `now`: from start to completion, or
    /// to `now` while running; never negative; none before the start
    pub fn duration_ms_at(&self, now: i64) -> (r: Option<u64>)
        ensures
            r == match (self.started_at, self.completed_at) {
                (Some(s), Some(e)) => Some(if e >= s { (e - s) as u64 } else { 0u64 }),
                (Some(s), None) => Some(if now >= s { (now - s) as u64 } else { 0u64 }),
                _ => None,
            },
    {
        match (self.started_at, self.completed_at) {
            (Some(s), Some(e)) => Some(span_ms(s, e)),
            (Some(s), None) => Some(span_ms(s, now)),
            _ => None,
        }
    }

    /// Execution time in milliseconds, counting to now while running
    pub fn duration_ms(&self) -> (r: Option<u64>)
        ensures
            r is Some <==> self.started_at is Some,
            (self.started_at, self.completed_at) matches (Some(s), Some(e))
                ==> r == Some(if e >= s { (e - s) as u64 } else { 0u64 }),
    {
        self.duration_ms_at(unix_millis())
    }

    /// Get the full command string: the command, then each argument after a
    /// space
    pub fn full_command(&self) -> (r: String)
        ensures
            r@ == command_line(self.command@, self.args@.map_values(|a: String| a@)),
    {
        let mut r = owned(self.command.as_str());
        let ghost av = self.args@.map_values(|a: String| a@);
        let mut i: usize = 0;
        while i < self.args.len()
            invariant
                i <= self.args@.len(),
                av == self.args@.map_values(|a: String| a@),
                r@ == command_line(self.command@, av.subrange(0, i as int)),
            decreases self.args.len() - i,
        {
            assert(av.subrange(0, i + 1).drop_last() =~= av.subrange(0, i as int));
            crate::text::push_str(&mut r, " ");
            crate::text::push_str(&mut r, self.args[i].as_str());
            i = i + 1;
        }
        assert(av.subrange(0, av.len() as int) =~= av);
        r
    }
}

/// The milliseconds from `s` to `e`, or 0 when `e` is earlier.
fn span_ms(s: i64, e: i64) -> (r: u64)
    ensures
        r == if e >= s { (e - s) as u64 } else { 0u64 },
{
    if e >= s {
        let d: i128 = (e as i128) - (s as i128);
        d as u64
    } else {
        0
    }
}

/// Scheduler statistics
#[derive(Debug, Clone, Copy, PartialEq, Eq, Structural)]
pub struct SchedulerStats {
    pub total: usize,
    pub completed: usize,
    pub failed: usize,
    pub skipped: usize,
    pub cancelled: usize,
}

impl Default for SchedulerStats {
    fn default() -> (r: Self)
        ensures
            r == (SchedulerStats { total: 0, completed: 0, failed: 0, skipped: 0, cancelled: 0 }),
    {
        SchedulerStats { total: 0, completed: 0, failed: 0, skipped: 0, cancelled: 0 }
    }
}

/// Scheduler configuration
#[derive(Debug, Clone, Copy, PartialEq, Eq, Structural)]
pub struct SchedulerConfig {
    /// Maximum number of concurrent tasks
    pub max_concurrent: usize,
    /// Default error policy
    pub error_policy: ErrorPolicy,
}

impl Default for SchedulerConfig {
    fn default() -> (r: Self)
        ensures
            r.max_concurrent == 4,
            r.error_policy == ErrorPolicy::StopOnError,
    {
        SchedulerConfig { max_concurrent: 4, error_policy: ErrorPolicy::StopOnError }
    }
}

/// Executor configuration
#[derive(Debug, Clone)]
pub struct ExecutorConfig {
    /// Maximum concurrent tasks
    pub max_concurrent: usize,
    /// Working directory for tasks
    pub working_dir: String,
    /// Shell to use for command execution
    pub shell: String,
    /// Capture task output
    pub capture_output: bool,
}

impl ExecutorConfig {
    /// The default configuration, given what the process environment holds:
    /// the current directory (when it could be read) and `$SHELL` (when set).
    pub fn from_environment(cwd: Option<String>, shell: Option<String>) -> (r: Self)
        ensures
            r.max_concurrent == 4,
            r.working_dir@ == match cwd { Some(d) => d@, None => "/"@ },
            r.shell@ == match shell { Some(s) => s@, None => "/bin/sh"@ },
            r.capture_output,
    {
        let working_dir = match cwd {
            Some(d) => d,
            None => owned("/"),
        };
        let shell = match shell {
            Some(s) => s,
            None => owned("/bin/sh"),
        };
        ExecutorConfig { max_concurrent: 4, working_dir, shell, capture_output: true }
    }
}

} // verus!
