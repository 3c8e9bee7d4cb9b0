//! Task scheduler: starts the tasks of a task graph as their dependencies
//! finish, within a limit of concurrent tasks, and decides what follows
//! when a task finishes or is cancelled.
//!
//! The scheduler only decides: whoever runs the tasks reports to it and
//! acts on the events it returns.

use vstd::prelude::*;
use std::collections::{HashMap, HashSet};
use crate::taskgraph::{TaskGraph, TaskError, found, blocked_updated, pick};
use crate::tasks::{TaskNode, TaskStatus, TaskResult, SchedulerConfig, SchedulerStats, TaskStatistics,
    ErrorPolicy, statistics_spec, terminal_status, only_status_changed, result_view, lemma_counts_partition, count_status};
use crate::text::owned;
use crate::bookmarks::{copy_strings, texts};

verus! {

broadcast use vstd::std_specs::hash::group_hash_axioms;

/// A task to start, as text: its identifier, command and arguments.
pub open spec fn start_view(t: (u128, String, Vec<String>)) -> (u128, Seq<char>, Seq<Seq<char>>) {
    (t.0, t.1@, texts(t.2@))
}

/// The tasks to start out of some candidates, in order, and the identifiers
/// waiting to start afterwards: a candidate already waiting is passed over,
/// one that finds no task too; each other starts and then waits.
pub open spec fn batch(g: TaskGraph, cand: Seq<u128>, waiting: Set<u128>) -> (Seq<(u128, Seq<char>, Seq<Seq<char>>)>, Set<u128>)
    decreases cand.len(),
{
    if cand.len() == 0 {
        (Seq::empty(), waiting)
    } else {
        let (r, w) = batch(g, cand.drop_last(), waiting);
        let id = cand.last();
        if w.contains(id) {
            (r, w)
        } else {
            match g.task_of(id) {
                Some(t) => (r.push((id, t.command@, texts(t.args@))), w.insert(id)),
                None => (r, w),
            }
        }
    }
}

/// The first `n` identifiers (all of them if there are fewer).
pub open spec fn first_ids(s: Seq<u128>, n: nat) -> Seq<u128> {
    if s.len() <= n { s } else { s.take(n as int) }
}

/// The identifiers of `ds` not in `seen`, in order.
pub open spec fn unseen(ds: Seq<u128>, seen: Set<u128>) -> Seq<u128>
    decreases ds.len(),
{
    if ds.len() == 0 {
        Seq::empty()
    } else if seen.contains(ds.last()) {
        unseen(ds.drop_last(), seen)
    } else {
        unseen(ds.drop_last(), seen).push(ds.last())
    }
}

/// What `unseen` keeps comes from `ds`.
proof fn lemma_unseen_from(ds: Seq<u128>, seen: Set<u128>)
    ensures
        forall|k: int| 0 <= k < unseen(ds, seen).len() ==> ds.contains(#[trigger] unseen(ds, seen)[k]),
    decreases ds.len(),
{
    if ds.len() > 0 {
        let d = ds.drop_last();
        lemma_unseen_from(d, seen);
        assert forall|k: int| 0 <= k < unseen(ds, seen).len() implies ds.contains(#[trigger] unseen(ds, seen)[k]) by {
            if k < unseen(d, seen).len() {
                let x = unseen(d, seen)[k];
                assert(d.contains(x));
                let j = choose|j: int| 0 <= j < d.len() && d[j] == x;
                assert(ds[j] == x);
            } else {
                assert(ds[ds.len() - 1] == ds.last());
            }
        }
    }
}

/// The walk over dependents stays among `u`: a finite set holding every
/// task of the graph and every identifier still to visit.
pub open spec fn walk_ok(g: TaskGraph, u: Set<u128>, stack: Seq<u128>) -> bool {
    &&& g.wf()
    &&& u.finite()
    &&& forall|k: int| 0 <= k < stack.len() ==> u.contains(#[trigger] stack[k])
    &&& forall|k: int| 0 <= k < g.ids().len() ==> u.contains(#[trigger] g.ids()[k])
}

/// The dependents found by a depth-first walk: take the last identifier to
/// visit; if not seen yet, mark it seen, and its dependents not seen yet are
/// both found and to be visited, in order.
pub open spec fn walk(g: TaskGraph, u: Set<u128>, stack: Seq<u128>, seen: Set<u128>, out: Seq<u128>) -> Seq<u128>
    decreases u.difference(seen).len(), stack.len(),
    when walk_ok(g, u, stack)
{
    if stack.len() == 0 {
        out
    } else {
        let cur = stack.last();
        let rest = stack.drop_last();
        if seen.contains(cur) {
            walk(g, u, rest, seen, out)
        } else {
            let s2 = seen.insert(cur);
            let new = unseen(g.dependents_of(cur), s2);
            proof {
                assert(u.contains(stack[stack.len() - 1]));
                assert(u.difference(s2) =~= u.difference(seen).remove(cur));
            }
            walk(g, u, rest + new, s2, out + new)
        }
    }
}

/// One step of the walk keeps it among `u`.
proof fn lemma_walk_step(g: TaskGraph, u: Set<u128>, stack: Seq<u128>, seen: Set<u128>)
    requires
        walk_ok(g, u, stack),
        stack.len() > 0,
    ensures
        walk_ok(g, u, stack.drop_last()),
        walk_ok(g, u, stack.drop_last() + unseen(g.dependents_of(stack.last()), seen.insert(stack.last()))),
{
    let rest = stack.drop_last();
    let cur = stack.last();
    let new = unseen(g.dependents_of(cur), seen.insert(cur));
    assert forall|k: int| 0 <= k < rest.len() implies u.contains(#[trigger] rest[k]) by {
        assert(rest[k] == stack[k]);
    }
    g.lemma_dependents_in_graph(cur);
    lemma_unseen_from(g.dependents_of(cur), seen.insert(cur));
    let s = rest + new;
    assert forall|k: int| 0 <= k < s.len() implies u.contains(#[trigger] s[k]) by {
        if k < rest.len() {
            assert(s[k] == rest[k]);
        } else {
            let x = new[k - rest.len()];
            assert(s[k] == x);
            assert(g.dependents_of(cur).contains(x));
            let j = choose|j: int| 0 <= j < g.dependents_of(cur).len() && g.dependents_of(cur)[j] == x;
            assert(g.ids().contains(g.dependents_of(cur)[j]));
            let q = choose|q: int| 0 <= q < g.ids().len() && g.ids()[q] == x;
            assert(u.contains(g.ids()[q]));
        }
    }
}

/// Events that the scheduler can produce
#[derive(Debug, Clone)]
pub enum SchedulerEvent {
    /// A task is ready to be executed
    TaskReady { task_id: u128, command: String, args: Vec<String> },
    /// A task has completed
    TaskCompleted { task_id: u128, result: TaskResult },
    /// A task has failed
    TaskFailed { task_id: u128, error: String },
    /// A task was skipped due to dependency failure
    TaskSkipped { task_id: u128 },
    /// All tasks are complete
    AllComplete { stats: SchedulerStats },
    /// Progress update
    Progress { completed: usize, total: usize, running: usize },
}

/// Commands that can be sent to the scheduler
#[derive(Debug)]
pub enum SchedulerCommand {
    /// Report that a task has started with a PTY
    TaskStarted { task_id: u128, pty_id: u128 },
    /// Report that a task has completed
    TaskCompleted { task_id: u128, result: TaskResult },
    /// Cancel a specific task
    CancelTask { task_id: u128 },
    /// Cancel all tasks
    CancelAll,
    /// Pause scheduling (don't start new tasks)
    Pause,
    /// Resume scheduling
    Resume,
}

/// An event as plain values.
pub enum EventView {
    Ready { id: u128, command: Seq<char>, args: Seq<Seq<char>> },
    Completed { id: u128, result: (i32, Seq<char>, Seq<char>, Option<Seq<char>>, u64) },
    Failed { id: u128, error: Seq<char> },
    Skipped { id: u128 },
    AllComplete { stats: SchedulerStats },
    Progress { completed: usize, total: usize, running: usize },
}

/// An event as plain values.
pub open spec fn event_view(e: SchedulerEvent) -> EventView {
    match e {
        SchedulerEvent::TaskReady { task_id, command, args } => EventView::Ready { id: task_id, command: command@, args: texts(args@) },
        SchedulerEvent::TaskCompleted { task_id, result } => EventView::Completed { id: task_id, result: result_view(result) },
        SchedulerEvent::TaskFailed { task_id, error } => EventView::Failed { id: task_id, error: error@ },
        SchedulerEvent::TaskSkipped { task_id } => EventView::Skipped { id: task_id },
        SchedulerEvent::AllComplete { stats } => EventView::AllComplete { stats },
        SchedulerEvent::Progress { completed, total, running } => EventView::Progress { completed, total, running },
    }
}

/// Events as plain values.
pub open spec fn events_view(v: Seq<SchedulerEvent>) -> Seq<EventView> {
    v.map_values(|e: SchedulerEvent| event_view(e))
}

/// The readiness events of a batch of tasks to start.
pub open spec fn ready_events(b: Seq<(u128, Seq<char>, Seq<Seq<char>>)>) -> Seq<EventView> {
    b.map_values(|t: (u128, Seq<char>, Seq<Seq<char>>)| EventView::Ready { id: t.0, command: t.1, args: t.2 })
}

/// The identifiers of `ds` that find a task of `g`, in order.
pub open spec fn found_ids(g: TaskGraph, ds: Seq<u128>) -> Seq<u128>
    decreases ds.len(),
{
    if ds.len() == 0 {
        Seq::empty()
    } else if g.task_of(ds.last()) is Some {
        found_ids(g, ds.drop_last()).push(ds.last())
    } else {
        found_ids(g, ds.drop_last())
    }
}

/// The skip events of some tasks.
pub open spec fn skip_events(ids: Seq<u128>) -> Seq<EventView> {
    ids.map_values(|id: u128| EventView::Skipped { id })
}

/// Whether node index `i` is where one of `ds` finds a task of `g`.
pub open spec fn hit(g: TaskGraph, ds: Seq<u128>, i: int) -> bool {
    exists|k: int| 0 <= k < ds.len() && found(g.index(), g.tasks().len(), #[trigger] ds[k]) && g.index()[ds[k]] == i
}

/// Whether `b` is `a` with every task that one of `ds` finds skipped.
pub open spec fn skipped_all(a: TaskGraph, ds: Seq<u128>, b: TaskGraph) -> bool {
    &&& a.wf() ==> b.wf()
    &&& b.index() == a.index()
    &&& b.deps() == a.deps()
    &&& b.tasks().len() == a.tasks().len()
    &&& forall|i: int| 0 <= i < a.tasks().len() ==> if hit(a, ds, i) {
        &&& (#[trigger] b.tasks()[i]).status == TaskStatus::Skipped
        &&& b.tasks()[i].completed_at is Some
        &&& only_status_changed(a.tasks()[i], b.tasks()[i])
    } else {
        b.tasks()[i] == a.tasks()[i]
    }
}

/// Skip every task that one of `ds` finds, in order, with an event for each.
fn skip_each(graph: &mut TaskGraph, ds: &Vec<u128>) -> (r: Vec<SchedulerEvent>)
    requires
        old(graph).wf(),
    ensures
        skipped_all(*old(graph), ds@, *final(graph)),
        events_view(r@) == skip_events(found_ids(*old(graph), ds@)),
{
    let ghost g0 = *graph;
    let mut events: Vec<SchedulerEvent> = Vec::new();
    let mut k: usize = 0;
    while k < ds.len()
        invariant
            k <= ds@.len(),
            g0.wf(),
            skipped_all(g0, ds@.subrange(0, k as int), *graph),
            events_view(events@) == skip_events(found_ids(g0, ds@.subrange(0, k as int))),
        decreases ds.len() - k,
    {
        let id = ds[k];
        let ghost g1 = *graph;
        let ghost pre = ds@.subrange(0, k as int);
        let ghost post = ds@.subrange(0, k + 1);
        assert(post.drop_last() =~= pre);
        assert(post.last() == id);
        let ghost ev0 = events@;
        let res = graph.skip_task(&id);
        match res {
            Ok(()) => {
                events.push(SchedulerEvent::TaskSkipped { task_id: id });
                assert(events_view(events@) =~= events_view(ev0).push(EventView::Skipped { id }));
            },
            Err(_) => {
                assert(events@ == ev0);
            },
        }
        proof {
            assert((g1.task_of(id) is Some) == (g0.task_of(id) is Some)) by {
                assert(g1.index() == g0.index());
                assert(g1.tasks().len() == g0.tasks().len());
            }
            assert forall|i: int| 0 <= i < g0.tasks().len() implies (hit(g0, post, i) <==> (hit(g0, pre, i)
                || (found(g0.index(), g0.tasks().len(), id) && g0.index()[id] == i))) by {
                if hit(g0, post, i) {
                    let k2 = choose|k2: int| 0 <= k2 < post.len() && found(g0.index(), g0.tasks().len(), #[trigger] post[k2]) && g0.index()[post[k2]] == i;
                    if k2 < pre.len() {
                        assert(pre[k2] == post[k2]);
                    }
                }
                if hit(g0, pre, i) {
                    let k2 = choose|k2: int| 0 <= k2 < pre.len() && found(g0.index(), g0.tasks().len(), #[trigger] pre[k2]) && g0.index()[pre[k2]] == i;
                    assert(post[k2] == pre[k2]);
                }
                if found(g0.index(), g0.tasks().len(), id) && g0.index()[id] == i {
                    assert(post[k as int] == id);
                }
            }
            assert(found_ids(g0, post) == if g0.task_of(id) is Some { found_ids(g0, pre).push(id) } else { found_ids(g0, pre) });
            assert(events_view(events@) =~= skip_events(found_ids(g0, post)));
        }
        k = k + 1;
    }
    assert(ds@.subrange(0, ds@.len() as int) =~= ds@);
    events
}

/// How an error of the task graph is reported in a failure event.
pub open spec fn error_text(e: TaskError) -> Seq<char> {
    match e {
        TaskError::NotFound { .. } => "task not found"@,
        TaskError::CircularDependency { .. } => "circular dependency"@,
        TaskError::InvalidStateTransition { from, to } => "invalid state transition from "@ + from@ + " to "@ + to@,
        TaskError::CannotCancel { state, .. } => "cannot cancel task in state "@ + state@,
    }
}

impl TaskError {
    /// How the error is reported in a failure event
    pub fn describe(&self) -> (r: String)
        ensures
            r@ == error_text(*self),
    {
        match self {
            TaskError::NotFound { .. } => owned("task not found"),
            TaskError::CircularDependency { .. } => owned("circular dependency"),
            TaskError::InvalidStateTransition { from, to } => {
                let mut r = owned("invalid state transition from ");
                crate::text::push_str(&mut r, from.as_str());
                crate::text::push_str(&mut r, " to ");
                crate::text::push_str(&mut r, to.as_str());
                r
            },
            TaskError::CannotCancel { state, .. } => {
                let mut r = owned("cannot cancel task in state ");
                crate::text::push_str(&mut r, state.as_str());
                r
            },
        }
    }
}

/// Task Scheduler
///
/// Manages task execution based on dependencies and concurrency limits.
pub struct TaskScheduler {
    graph: TaskGraph,
    config: SchedulerConfig,
    running: HashMap<u128, u128>,
    pending_start: HashSet<u128>,
    paused: bool,
    cancelled: bool,
}

impl TaskScheduler {
    /// The task graph.
    pub closed spec fn g(&self) -> TaskGraph {
        self.graph
    }

    /// The configuration.
    pub closed spec fn cfg(&self) -> SchedulerConfig {
        self.config
    }

    /// The running tasks, each with its PTY.
    pub closed spec fn run(&self) -> Map<u128, u128> {
        self.running@
    }

    /// The tasks handed out to start that have not reported yet.
    pub closed spec fn waiting(&self) -> Set<u128> {
        self.pending_start@
    }

    /// Whether scheduling is paused.
    pub closed spec fn paused_now(&self) -> bool {
        self.paused
    }

    /// Whether everything was cancelled.
    pub closed spec fn cancelled_all(&self) -> bool {
        self.cancelled
    }

    /// Whether only the pause differs from `other`.
    pub open spec fn same_apart_from_pause(&self, other: Self) -> bool {
        &&& self.g() == other.g()
        &&& self.cfg() == other.cfg()
        &&& self.run() == other.run()
        &&& self.waiting() == other.waiting()
        &&& self.cancelled_all() == other.cancelled_all()
    }

    /// The graph is well formed.
    pub open spec fn wf(&self) -> bool {
        self.g().wf()
    }

    /// Whether more tasks may start: not paused, not cancelled, and fewer
    /// running than the limit.
    pub open spec fn may_start(&self) -> bool {
        !self.paused_now() && !self.cancelled_all() && self.run().len() < self.cfg().max_concurrent
    }

    /// Create a new scheduler with a task graph
    pub fn new(graph: TaskGraph, config: SchedulerConfig) -> (s: Self)
        ensures
            s.g() == graph,
            s.cfg() == config,
            s.run() == Map::<u128, u128>::empty(),
            s.waiting() == Set::<u128>::empty(),
            !s.paused_now(),
            !s.cancelled_all(),
    {
        TaskScheduler {
            graph,
            config,
            running: HashMap::new(),
            pending_start: HashSet::new(),
            paused: false,
            cancelled: false,
        }
    }

    /// Create a scheduler with default configuration
    pub fn with_graph(graph: TaskGraph) -> (s: Self)
        ensures
            s.g() == graph,
            s.cfg().max_concurrent == 4,
            s.cfg().error_policy == ErrorPolicy::StopOnError,
            s.run() == Map::<u128, u128>::empty(),
            s.waiting() == Set::<u128>::empty(),
            !s.paused_now(),
            !s.cancelled_all(),
    {
        Self::new(graph, SchedulerConfig::default())
    }

    /// Get the underlying task graph
    pub fn graph(&self) -> (g: &TaskGraph)
        ensures
            *g == self.g(),
    {
        &self.graph
    }

    /// Get mutable access to the task graph
    pub fn graph_mut(&mut self) -> (g: &mut TaskGraph)
        ensures
            *g == old(self).g(),
            final(self).g() == *final(g),
            final(self).cfg() == old(self).cfg(),
            final(self).run() == old(self).run(),
            final(self).waiting() == old(self).waiting(),
            final(self).paused_now() == old(self).paused_now(),
            final(self).cancelled_all() == old(self).cancelled_all(),
    {
        &mut self.graph
    }

    /// Get the number of currently running tasks
    pub fn running_count(&self) -> (n: usize)
        ensures
            n == self.run().len(),
    {
        self.running.len()
    }

    /// Check if more tasks can be started
    pub fn can_start_more(&self) -> (b: bool)
        ensures
            b == self.may_start(),
    {
        !self.paused && !self.cancelled && self.running.len() < self.config.max_concurrent
    }

    /// Pause scheduling
    pub fn pause(&mut self)
        ensures
            final(self).paused_now(),
            final(self).same_apart_from_pause(*old(self)),
    {
        self.paused = true;
    }

    /// Resume scheduling
    pub fn resume(&mut self)
        ensures
            !final(self).paused_now(),
            final(self).same_apart_from_pause(*old(self)),
    {
        self.paused = false;
    }

    /// Check if scheduling is paused
    pub fn is_paused(&self) -> (b: bool)
        ensures
            b == self.paused_now(),
    {
        self.paused
    }

    /// Check if all tasks are complete: none running, none waiting to start,
    /// and every task of the graph finished
    pub fn is_complete(&self) -> (b: bool)
        requires
            self.wf(),
        ensures
            b == (self.run().len() == 0 && self.waiting().len() == 0
                && forall|i: int| 0 <= i < self.g().tasks().len() ==> terminal_status(#[trigger] self.g().statuses()[i])),
    {
        self.running.len() == 0 && self.pending_start.len() == 0 && self.graph.is_complete()
    }

    /// Get scheduler statistics: the graph's counts of all, completed,
    /// failed, skipped and cancelled tasks
    pub fn statistics(&self) -> (r: SchedulerStats)
        requires
            self.wf(),
        ensures
            r == stats_of(statistics_spec(self.g().statuses())),
    {
        let s = self.graph.statistics();
        SchedulerStats { total: s.total, completed: s.completed, failed: s.failed, skipped: s.skipped, cancelled: s.cancelled }
    }

    /// Mark a task as started on a PTY: it no longer waits to start, the
    /// graph starts it, and it runs on that PTY; when the graph refuses,
    /// the error is returned and the task does not run
    pub fn task_started(&mut self, task_id: u128, pty_id: u128) -> (r: Result<(), TaskError>)
        requires
            old(self).wf(),
        ensures
            started_rel(*old(self), task_id, pty_id, *final(self), r),
    {
        self.pending_start.remove(&task_id);
        match self.graph.start_task(&task_id, pty_id) {
            Ok(()) => {},
            Err(e) => {
                return Err(e);
            },
        }
        self.running.insert(task_id, pty_id);
        Ok(())
    }

    /// Get the next batch of tasks to execute: after bringing the blocked
    /// statuses up to date, the ready tasks, as many as there are free
    /// slots, less those already waiting to start; each of them now waits
    /// to start. Nothing while scheduling may not start more.
    pub fn get_next_tasks(&mut self) -> (r: Vec<(u128, String, Vec<String>)>)
        requires
            old(self).wf(),
        ensures
            next_tasks_rel(*old(self), *final(self), r@.map_values(|t: (u128, String, Vec<String>)| start_view(t))),
    {
        if !self.can_start_more() {
            return Vec::new();
        }
        self.graph.update_blocked_status();
        let ready = self.graph.get_ready_tasks();
        let ghost g1 = self.graph;
        let available_slots = self.config.max_concurrent - self.running.len();
        let ghost cand = first_ids(ready@, available_slots as nat);
        let ghost w0 = self.pending_start@;
        let n = if ready.len() < available_slots { ready.len() } else { available_slots };
        assert(cand =~= ready@.subrange(0, n as int));
        let mut result: Vec<(u128, String, Vec<String>)> = Vec::new();
        let mut k: usize = 0;
        while k < n
            invariant
                self.wf(),
                self.config == old(self).config,
                self.running@ == old(self).running@,
                self.paused == old(self).paused,
                self.cancelled == old(self).cancelled,
                self.graph == g1,
                k <= n <= ready@.len(),
                cand == ready@.subrange(0, n as int),
                ({
                    let b = batch(self.graph, cand.subrange(0, k as int), w0);
                    result@.map_values(|t: (u128, String, Vec<String>)| start_view(t)) == b.0 && self.pending_start@ == b.1
                }),
            decreases n - k,
        {
            let task_id = ready[k];
            let ghost before = result@.map_values(|t: (u128, String, Vec<String>)| start_view(t));
            assert(cand.subrange(0, k + 1).drop_last() =~= cand.subrange(0, k as int));
            assert(cand.subrange(0, k + 1).last() == task_id);
            if !self.pending_start.contains(&task_id) {
                match self.graph.get_task(&task_id) {
                    Some(task) => {
                        let command = owned(task.command.as_str());
                        let args = copy_strings(&task.args);
                        result.push((task_id, command, args));
                        self.pending_start.insert(task_id);
                        assert(result@.map_values(|t: (u128, String, Vec<String>)| start_view(t))
                            =~= before.push((task_id, task.command@, texts(task.args@))));
                    },
                    None => {},
                }
            }
            k = k + 1;
        }
        assert(cand.subrange(0, n as int) =~= cand);
        result
    }

    /// Get all transitive dependents of a task, in the order a depth-first
    /// walk finds them (a task reached twice before its visit is listed
    /// twice)
    fn get_all_dependents(&self, task_id: &u128) -> (r: Vec<u128>)
        requires
            self.wf(),
        ensures
            r@ == walk(self.g(), self.g().ids().to_set().insert(*task_id), seq![*task_id], Set::empty(), Seq::empty()),
    {
        let ghost g = self.graph;
        let ghost u = g.ids().to_set().insert(*task_id);
        let ghost target = walk(g, u, seq![*task_id], Set::empty(), Seq::empty());
        let mut all_dependents: Vec<u128> = Vec::new();
        let mut to_process: Vec<u128> = Vec::new();
        to_process.push(*task_id);
        let mut seen: HashSet<u128> = HashSet::new();
        proof {
            assert forall|k: int| 0 <= k < g.ids().len() implies u.contains(#[trigger] g.ids()[k]) by {
                assert(g.ids().contains(g.ids()[k]));
            }
            assert(to_process@ =~= seq![*task_id]);
            assert(seen@ =~= Set::<u128>::empty());
            assert(all_dependents@ =~= Seq::<u128>::empty());
        }
        while to_process.len() > 0
            invariant
                self.wf(),
                self.graph == g,
                walk_ok(g, u, to_process@),
                walk(g, u, to_process@, seen@, all_dependents@) == target,
            decreases u.difference(seen@).len(), to_process.len(),
        {
            let ghost stack = to_process@;
            let current = match to_process.pop() {
                Some(c) => c,
                None => {
                    return all_dependents;
                },
            };
            proof {
                lemma_walk_step(g, u, stack, seen@);
            }
            if seen.contains(&current) {
                continue;
            }
            let ghost s0 = seen@;
            seen.insert(current);
            let ghost s2 = seen@;
            let ghost out0 = all_dependents@;
            let ghost rest = to_process@;
            proof {
                assert(u.contains(stack[stack.len() - 1]));
                assert(u.difference(s2) =~= u.difference(s0).remove(current));
            }
            let deps = self.graph.get_dependents(&current);
            let mut j: usize = 0;
            while j < deps.len()
                invariant
                    j <= deps@.len(),
                    seen@ == s2,
                    all_dependents@ == out0 + unseen(deps@.subrange(0, j as int), s2),
                    to_process@ == rest + unseen(deps@.subrange(0, j as int), s2),
                decreases deps.len() - j,
            {
                let dep = deps[j];
                assert(deps@.subrange(0, j + 1).drop_last() =~= deps@.subrange(0, j as int));
                assert(deps@.subrange(0, j + 1).last() == dep);
                if !seen.contains(&dep) {
                    all_dependents.push(dep);
                    to_process.push(dep);
                }
                j = j + 1;
                assert(all_dependents@ =~= out0 + unseen(deps@.subrange(0, j as int), s2));
                assert(to_process@ =~= rest + unseen(deps@.subrange(0, j as int), s2));
            }
            assert(deps@.subrange(0, deps@.len() as int) =~= deps@);
        }
        all_dependents
    }

    /// Skip what depends on a failed task, as its error policy says, and
    /// report the failure last.
    fn handle_failure(&mut self, task_id: u128, stderr: String) -> (r: Vec<SchedulerEvent>)
        requires
            old(self).wf(),
            old(self).g().task_of(task_id) is Some,
        ensures
            final(self).wf(),
            failure_handled(old(self).g(), task_id, stderr@, final(self).g(), events_view(r@)),
            final(self).cfg() == old(self).cfg(),
            final(self).run() == old(self).run(),
            final(self).waiting() == old(self).waiting(),
            final(self).paused_now() == old(self).paused_now(),
            final(self).cancelled_all() == old(self).cancelled_all(),
    {
        let ghost g0 = self.graph;
        let policy = match self.graph.get_task(&task_id) {
            Some(t) => t.error_policy,
            None => self.config.error_policy,
        };
        let ghost err = stderr@;
        let ghost t0 = g0.task_of(task_id)->Some_0;
        assert(policy == t0.error_policy);
        let mut events = match policy {
            ErrorPolicy::StopOnError => {
                let ds = self.get_all_dependents(&task_id);
                assert(ds@ == all_dependents(g0, task_id));
                skip_each(&mut self.graph, &ds)
            },
            ErrorPolicy::ContinueOnError => {
                let ds = self.graph.get_dependents(&task_id);
                skip_each(&mut self.graph, &ds)
            },
            ErrorPolicy::RetryThenStop { max_retries } => {
                let again = match self.graph.get_task(&task_id) {
                    Some(t) => t.retry_count < max_retries,
                    None => false,
                };
                if again {
                    match self.graph.get_task_mut(&task_id) {
                        Some(task) => {
                            task.retry_count = task.retry_count + 1;
                            task.status = TaskStatus::Pending;
                        },
                        None => {},
                    }
                    assert(self.graph.tasks() =~= g0.tasks().update(g0.index()[task_id] as int, TaskNode {
                        retry_count: (t0.retry_count + 1) as u32,
                        status: TaskStatus::Pending,
                        ..t0
                    }));
                    assert(retried(g0, task_id, self.graph));
                    Vec::new()
                } else {
                    let ds = self.get_all_dependents(&task_id);
                    assert(ds@ == all_dependents(g0, task_id));
                    skip_each(&mut self.graph, &ds)
                }
            },
        };
        let ghost before = events@;
        events.push(SchedulerEvent::TaskFailed { task_id, error: stderr });
        assert(events_view(events@) =~= events_view(before).push(EventView::Failed { id: task_id, error: err }));
        proof {
            match t0.error_policy {
                ErrorPolicy::RetryThenStop { max_retries } => {
                    if t0.retry_count < max_retries {
                        assert(events_view(events@) =~= seq![EventView::Failed { id: task_id, error: err }]);
                    }
                },
                _ => {},
            }
        }
        events
    }

    /// The event that closes a report: all complete with the counts, or the
    /// progress.
    fn closing(&self) -> (e: SchedulerEvent)
        requires
            self.wf(),
        ensures
            event_view(e) == closing_event(*self),
    {
        if self.is_complete() {
            SchedulerEvent::AllComplete { stats: self.statistics() }
        } else {
            let st = self.graph.statistics();
            proof {
                self.graph.lemma_wf();
                lemma_counts_partition(self.g().statuses());
            }
            SchedulerEvent::Progress {
                completed: st.completed + st.failed + st.skipped + st.cancelled,
                total: st.total,
                running: st.running,
            }
        }
    }

    /// Mark a task as completed and process the result: it no longer runs
    /// or waits; the graph records the result; a failure is handled by the
    /// task's error policy; then the blocked statuses are brought up to
    /// date, the tasks now ready are handed out, and the report closes with
    /// all complete or the progress. A task the graph does not find is an
    /// error, after it stopped running and waiting.
    pub fn task_completed(&mut self, task_id: u128, result: TaskResult) -> (r: Result<Vec<SchedulerEvent>, TaskError>)
        requires
            old(self).wf(),
        ensures
            final(self).wf(),
            final(self).cfg() == old(self).cfg(),
            final(self).paused_now() == old(self).paused_now(),
            final(self).cancelled_all() == old(self).cancelled_all(),
            old(self).g().task_of(task_id) is None ==> {
                &&& r matches Err(TaskError::NotFound { id }) && id == task_id
                &&& final(self).run() == old(self).run().remove(task_id)
                &&& final(self).waiting() == old(self).waiting().remove(task_id)
                &&& final(self).g().tasks() == old(self).g().tasks()
                &&& final(self).g().index() == old(self).g().index()
                &&& final(self).g().deps() == old(self).g().deps()
            },
            old(self).g().task_of(task_id) is Some ==> (r matches Ok(events)
                && completed_as(*old(self), task_id, result_view(result), *final(self), events_view(events@))),
    {
        let ghost s0 = *self;
        let ghost rv = result_view(result);
        self.running.remove(&task_id);
        self.pending_start.remove(&task_id);
        let success = result.is_success();
        let stderr = owned(result.stderr.as_str());
        let recorded = result.copied();
        match self.graph.complete_task(&task_id, recorded) {
            Ok(()) => {},
            Err(e) => {
                return Err(e);
            },
        }
        let ghost g1 = self.graph;
        assert(finished_rel(s0.g(), task_id, rv, g1));
        let mut events: Vec<SchedulerEvent> = if !success {
            assert(g1.task_of(task_id) is Some);
            self.handle_failure(task_id, stderr)
        } else {
            let mut v: Vec<SchedulerEvent> = Vec::new();
            v.push(SchedulerEvent::TaskCompleted { task_id, result });
            assert(events_view(v@) =~= seq![EventView::Completed { id: task_id, result: rv }]);
            v
        };
        let ghost g2 = self.graph;
        let ghost e1 = events_view(events@);
        self.graph.update_blocked_status();
        let ghost s3 = *self;
        let batch = self.get_next_tasks();
        let ghost bt = batch@.map_values(|t: (u128, String, Vec<String>)| start_view(t));
        let mut k: usize = 0;
        while k < batch.len()
            invariant
                k <= batch@.len(),
                bt == batch@.map_values(|t: (u128, String, Vec<String>)| start_view(t)),
                events_view(events@) == e1 + ready_events(bt.subrange(0, k as int)),
            decreases batch.len() - k,
        {
            let ghost before = events@;
            let command = owned(batch[k].1.as_str());
            let args = copy_strings(&batch[k].2);
            events.push(SchedulerEvent::TaskReady { task_id: batch[k].0, command, args });
            assert(bt[k as int] == start_view(batch@[k as int]));
            assert(event_view(events@.last()) == EventView::Ready { id: bt[k as int].0, command: bt[k as int].1, args: bt[k as int].2 });
            assert(events_view(events@) =~= events_view(before).push(event_view(events@.last())));
            assert(bt.subrange(0, k + 1) =~= bt.subrange(0, k as int).push(bt[k as int]));
            assert(ready_events(bt.subrange(0, k + 1)) =~= ready_events(bt.subrange(0, k as int)).push(
                EventView::Ready { id: bt[k as int].0, command: bt[k as int].1, args: bt[k as int].2 }));
            assert(events_view(events@) =~= e1 + ready_events(bt.subrange(0, k + 1)));
            k = k + 1;
        }
        assert(bt.subrange(0, bt.len() as int) =~= bt);
        let ghost before = events@;
        let last = self.closing();
        events.push(last);
        proof {
            assert(events_view(events@) =~= e1 + ready_events(bt) + seq![closing_event(*self)]);
            if !success {
                assert(events_view(events@).subrange(0, events_view(events@).len() - bt.len() - 1) =~= e1);
            }
            assert(completion_chain(*old(self), task_id, rv, g1, g2, s3.g(), s3, bt, *self, events_view(events@)));
        }
        Ok(events)
    }

    /// Cancel a specific task: it no longer runs or waits; the graph cancels
    /// it (refused for a task not found or already finished); then every task
    /// that depends on it at any distance is skipped, with an event for each.
    pub fn cancel_task(&mut self, task_id: u128) -> (r: Result<Vec<SchedulerEvent>, TaskError>)
        requires
            old(self).wf(),
        ensures
            cancel_rel(*old(self), task_id, *final(self), r),
    {
        let ghost s0 = *self;
        self.running.remove(&task_id);
        self.pending_start.remove(&task_id);
        match self.graph.cancel_task(&task_id) {
            Ok(()) => {},
            Err(e) => {
                return Err(e);
            },
        }
        let ghost g1 = self.graph;
        let dependents = self.get_all_dependents(&task_id);
        let events = skip_each(&mut self.graph, &dependents);
        assert(cancelled_in(s0.g(), task_id, g1));
        Ok(events)
    }

    /// The running tasks' identifiers, each once, in the map's order.
    fn running_ids(&self) -> (r: Vec<u128>)
        ensures
            r@.to_set() == self.run().dom(),
            r@.no_duplicates(),
    {
        let mut ids: Vec<u128> = Vec::new();
        let ghost all = vstd::std_specs::iter::IteratorSpec::remaining(&vstd::std_specs::hash::spec_keys_iter(&self.running)).unref();
        proof {
            vstd::std_specs::hash::axiom_spec_keys_iter(&self.running);
        }
        for k in it: self.running.keys()
            invariant
                it.seq().unref() == all,
                ids@ == it.seq().subrange(0, it.index() as int).unref(),
            ensures
                ids@ == all,
        {
            ids.push(*k);
            assert(ids@ =~= it.seq().subrange(0, it.index() + 1).unref());
        }
        ids
    }

    /// Cancel all tasks: scheduling stops for good; each running task is
    /// cancelled as `cancel_task` does, in the map's order, collecting the
    /// events of those that succeed; then each task that is still pending
    /// is cancelled in the graph.
    pub fn cancel_all(&mut self) -> (r: Vec<SchedulerEvent>)
        requires
            old(self).wf(),
        ensures
            final(self).wf(),
            cancel_all_rel(*old(self), *final(self), events_view(r@)),
    {
        let ghost a = *self;
        self.cancelled = true;
        let mut events: Vec<SchedulerEvent> = Vec::new();
        let running_ids = self.running_ids();
        let ghost ks = running_ids@;
        let ghost mut ss: Seq<TaskScheduler> = seq![*self];
        let ghost mut es: Seq<Seq<EventView>> = Seq::empty();
        let mut k: usize = 0;
        while k < running_ids.len()
            invariant
                self.wf(),
                k <= running_ids@.len(),
                ks == running_ids@,
                ss.len() == k + 1,
                ss[k as int] == *self,
                ss[0].g() == a.g() && ss[0].run() == a.run() && ss[0].waiting() == a.waiting()
                    && ss[0].cfg() == a.cfg() && ss[0].paused_now() == a.paused_now() && ss[0].cancelled_all(),
                cancel_steps(ss, ks.subrange(0, k as int), es),
                events_view(events@) == flatten(es),
                self.cancelled_all(),
                self.cfg() == a.cfg(),
                self.paused_now() == a.paused_now(),
                ks.to_set() == a.run().dom(),
                ks.no_duplicates(),
            decreases running_ids.len() - k,
        {
            let id = running_ids[k];
            let ghost before = events@;
            let res = self.cancel_task(id);
            let ghost step: Seq<EventView> = match &res {
                Ok(v) => events_view(v@),
                Err(_) => Seq::empty(),
            };
            proof {
                assert(cancel_rel(ss[k as int], id, *self, res));
            }
            match res {
                Ok(evts) => {
                    let mut evts = evts;
                    events.append(&mut evts);
                    assert(events_view(events@) =~= events_view(before) + step);
                },
                Err(_) => {},
            }
            proof {
                let ss2 = ss.push(*self);
                let es2 = es.push(step);
                assert(ks.subrange(0, k + 1).drop_last() =~= ks.subrange(0, k as int));
                assert(cancel_step(ss[k as int], id, *self, step));
                assert forall|q: int| 0 <= q < k + 1 implies #[trigger] cancel_step(ss2[q], ks.subrange(0, k + 1)[q], ss2[q + 1], es2[q]) by {
                    if q < k {
                        assert(ss2[q] == ss[q] && ss2[q + 1] == ss[q + 1] && es2[q] == es[q]);
                        assert(ks.subrange(0, k + 1)[q] == ks.subrange(0, k as int)[q]);
                    }
                }
                assert(es2.drop_last() =~= es);
                assert(flatten(es2) =~= flatten(es) + step);
                ss = ss2;
                es = es2;
            }
            k = k + 1;
        }
        assert(ks.subrange(0, ks.len() as int) =~= ks);
        let ghost last = *self;
        assert(ss[ks.len() as int] == last);
        let pending_ids = self.graph.get_tasks_by_status(TaskStatus::Pending);
        let ghost mut gs: Seq<TaskGraph> = seq![self.graph];
        let mut j: usize = 0;
        while j < pending_ids.len()
            invariant
                self.wf(),
                j <= pending_ids@.len(),
                gs.len() == j + 1,
                gs[0] == last.g(),
                gs[j as int] == self.graph,
                graph_cancel_steps(gs, pending_ids@.subrange(0, j as int)),
                self.run() == last.run(),
                self.waiting() == last.waiting(),
                self.cfg() == last.cfg(),
                self.paused_now() == last.paused_now(),
                self.cancelled_all(),
            decreases pending_ids.len() - j,
        {
            let id = pending_ids[j];
            let _ = self.graph.cancel_task(&id);
            proof {
                let gs2 = gs.push(self.graph);
                assert(pending_ids@.subrange(0, j + 1).drop_last() =~= pending_ids@.subrange(0, j as int));
                assert forall|q: int| 0 <= q < j + 1 implies #[trigger] graph_cancel(gs2[q], pending_ids@.subrange(0, j + 1)[q], gs2[q + 1]) by {
                    if q < j {
                        assert(gs2[q] == gs[q] && gs2[q + 1] == gs[q + 1]);
                        assert(pending_ids@.subrange(0, j + 1)[q] == pending_ids@.subrange(0, j as int)[q]);
                    }
                }
                gs = gs2;
            }
            j = j + 1;
        }
        assert(pending_ids@.subrange(0, pending_ids@.len() as int) =~= pending_ids@);
        assert(cancel_all_chain(a, ks, ss, es, gs, *self, events_view(events@)));
        events
    }

    /// The readiness events of a batch of tasks to start.
    fn ready_events_of(batch: Vec<(u128, String, Vec<String>)>) -> (r: Vec<SchedulerEvent>)
        ensures
            events_view(r@) == ready_events(batch@.map_values(|t: (u128, String, Vec<String>)| start_view(t))),
    {
        let ghost bt = batch@.map_values(|t: (u128, String, Vec<String>)| start_view(t));
        let mut events: Vec<SchedulerEvent> = Vec::new();
        let mut k: usize = 0;
        while k < batch.len()
            invariant
                k <= batch@.len(),
                bt == batch@.map_values(|t: (u128, String, Vec<String>)| start_view(t)),
                events_view(events@) == ready_events(bt.subrange(0, k as int)),
            decreases batch.len() - k,
        {
            let ghost before = events@;
            let command = owned(batch[k].1.as_str());
            let args = copy_strings(&batch[k].2);
            events.push(SchedulerEvent::TaskReady { task_id: batch[k].0, command, args });
            assert(bt[k as int] == start_view(batch@[k as int]));
            assert(events_view(events@) =~= events_view(before).push(event_view(events@.last())));
            assert(ready_events(bt.subrange(0, k + 1)) =~= ready_events(bt.subrange(0, k as int)).push(
                EventView::Ready { id: bt[k as int].0, command: bt[k as int].1, args: bt[k as int].2 }));
            k = k + 1;
        }
        assert(bt.subrange(0, bt.len() as int) =~= bt);
        events
    }

    /// Start scheduling and return initial tasks to run, with a first
    /// progress report
    pub fn start(&mut self) -> (r: Vec<SchedulerEvent>)
        requires
            old(self).wf(),
        ensures
            final(self).wf(),
            started_scheduling(*old(self), *final(self), events_view(r@)),
    {
        self.graph.update_blocked_status();
        let ghost s1 = *self;
        let batch = self.get_next_tasks();
        let ghost bt = batch@.map_values(|t: (u128, String, Vec<String>)| start_view(t));
        let mut events = Self::ready_events_of(batch);
        let stats = self.graph.statistics();
        let ghost before = events@;
        events.push(SchedulerEvent::Progress { completed: 0, total: stats.total, running: 0 });
        assert(events_view(events@) =~= ready_events(bt)
            + seq![EventView::Progress { completed: 0, total: self.g().tasks().len() as usize, running: 0 }]);
        assert(next_tasks_rel(s1, *self, bt));
        events
    }

    /// Carry out a command from whoever runs the tasks, returning the events
    /// it produces and whether every task is now complete. A start the graph
    /// refuses is reported as that task's failure; a completion or a
    /// cancellation that fails produces no event; resuming hands out the
    /// tasks now ready.
    pub fn handle_command(&mut self, command: SchedulerCommand) -> (r: (Vec<SchedulerEvent>, bool))
        requires
            old(self).wf(),
        ensures
            final(self).wf(),
            r.1 == (final(self).run().len() == 0 && final(self).waiting().len() == 0
                && forall|i: int| 0 <= i < final(self).g().tasks().len() ==> terminal_status(#[trigger] final(self).g().statuses()[i])),
            match command {
                SchedulerCommand::TaskStarted { task_id, pty_id } => exists|res: Result<(), TaskError>|
                    #[trigger] started_rel(*old(self), task_id, pty_id, *final(self), res) && match res {
                        Ok(()) => r.0@.len() == 0,
                        Err(e) => events_view(r.0@) == seq![EventView::Failed { id: task_id, error: error_text(e) }],
                    },
                SchedulerCommand::TaskCompleted { task_id, result } => if old(self).g().task_of(task_id) is Some {
                    completed_as(*old(self), task_id, result_view(result), *final(self), events_view(r.0@))
                } else {
                    r.0@.len() == 0 && final(self).run() == old(self).run().remove(task_id)
                        && final(self).waiting() == old(self).waiting().remove(task_id)
                        && final(self).g().tasks() == old(self).g().tasks()
                },
                SchedulerCommand::CancelTask { task_id } => exists|res: Result<Vec<SchedulerEvent>, TaskError>|
                    #[trigger] cancel_rel(*old(self), task_id, *final(self), res) && match res {
                        Ok(v) => events_view(r.0@) == events_view(v@),
                        Err(_) => r.0@.len() == 0,
                    },
                SchedulerCommand::CancelAll => cancel_all_rel(*old(self), *final(self), events_view(r.0@)),
                SchedulerCommand::Pause => final(self).paused_now() && final(self).same_apart_from_pause(*old(self)) && r.0@.len() == 0,
                SchedulerCommand::Resume => exists|s1: TaskScheduler, bt: Seq<(u128, Seq<char>, Seq<Seq<char>>)>|
                    #[trigger] next_tasks_rel(s1, *final(self), bt) && !s1.paused_now() && s1.same_apart_from_pause(*old(self))
                        && events_view(r.0@) == ready_events(bt),
            },
    {
        let events = match command {
            SchedulerCommand::TaskStarted { task_id, pty_id } => {
                let res = self.task_started(task_id, pty_id);
                match res {
                    Ok(()) => {
                        let v: Vec<SchedulerEvent> = Vec::new();
                        assert(started_rel(*old(self), task_id, pty_id, *self, res));
                        v
                    },
                    Err(e) => {
                        let ghost text = error_text(e);
                        let mut v: Vec<SchedulerEvent> = Vec::new();
                        v.push(SchedulerEvent::TaskFailed { task_id, error: e.describe() });
                        assert(events_view(v@) =~= seq![EventView::Failed { id: task_id, error: text }]);
                        assert(started_rel(*old(self), task_id, pty_id, *self, Err(e)));
                        v
                    },
                }
            },
            SchedulerCommand::TaskCompleted { task_id, result } => {
                match self.task_completed(task_id, result) {
                    Ok(v) => v,
                    Err(_) => Vec::new(),
                }
            },
            SchedulerCommand::CancelTask { task_id } => {
                let res = self.cancel_task(task_id);
                assert(cancel_rel(*old(self), task_id, *self, res));
                match res {
                    Ok(v) => v,
                    Err(_) => Vec::new(),
                }
            },
            SchedulerCommand::CancelAll => self.cancel_all(),
            SchedulerCommand::Pause => {
                self.pause();
                Vec::new()
            },
            SchedulerCommand::Resume => {
                self.resume();
                let ghost s1 = *self;
                let batch = self.get_next_tasks();
                let ghost bt = batch@.map_values(|t: (u128, String, Vec<String>)| start_view(t));
                let v = Self::ready_events_of(batch);
                assert(next_tasks_rel(s1, *self, bt));
                v
            },
        };
        let done = self.is_complete();
        (events, done)
    }
}

/// Whether `b`, handing out `out`, is what `get_next_tasks` makes of `a`:
/// nothing while `a` may not start more; otherwise the blocked statuses
/// brought up to date and the batch of ready tasks that fits the free
/// slots, each now waiting to start.
pub open spec fn next_tasks_rel(a: TaskScheduler, b: TaskScheduler, out: Seq<(u128, Seq<char>, Seq<Seq<char>>)>) -> bool {
    &&& a.wf() ==> b.wf()
    &&& b.cfg() == a.cfg()
    &&& b.run() == a.run()
    &&& b.paused_now() == a.paused_now()
    &&& b.cancelled_all() == a.cancelled_all()
    &&& !a.may_start() ==> out.len() == 0 && b == a
    &&& a.may_start() ==> {
        let bt = batch(b.g(), first_ids(b.g().ready_ids(), (a.cfg().max_concurrent - a.run().len()) as nat), a.waiting());
        &&& blocked_updated(a.g(), b.g())
        &&& out == bt.0
        &&& b.waiting() == bt.1
    }
}

/// The event that closes a report: all complete, with the counts, when
/// nothing runs, nothing waits and every task has finished; otherwise the
/// progress: finished, total and running tasks.
pub open spec fn closing_event(s: TaskScheduler) -> EventView {
    let st = statistics_spec(s.g().statuses());
    if s.run().len() == 0 && s.waiting().len() == 0
        && forall|i: int| 0 <= i < s.g().tasks().len() ==> terminal_status(#[trigger] s.g().statuses()[i]) {
        EventView::AllComplete { stats: stats_of(st) }
    } else {
        EventView::Progress { completed: (st.completed + st.failed + st.skipped + st.cancelled) as usize, total: st.total, running: st.running }
    }
}

/// Whether `b` is `a` after task `id` finished with a result whose plain
/// values are `rv`.
pub open spec fn finished_rel(a: TaskGraph, id: u128, rv: (i32, Seq<char>, Seq<char>, Option<Seq<char>>, u64), b: TaskGraph) -> bool {
    &&& a.wf() ==> b.wf()
    &&& b.index() == a.index()
    &&& b.deps() == a.deps()
    &&& a.task_of(id) matches Some(t) && {
        let p = a.index()[id] as int;
        &&& b.tasks()[p].completed_at is Some
        &&& b.tasks()[p].result matches Some(r2) && result_view(r2) == rv
        &&& b.tasks() == a.tasks().update(p, TaskNode {
            status: if rv.0 == 0 { TaskStatus::Completed } else { TaskStatus::Failed },
            result: b.tasks()[p].result,
            completed_at: b.tasks()[p].completed_at,
            ..t
        })
    }
}

/// Whether `b` is `a` with task `id` set to run again: pending, its retry
/// count one up.
pub open spec fn retried(a: TaskGraph, id: u128, b: TaskGraph) -> bool {
    &&& a.wf() ==> b.wf()
    &&& b.index() == a.index()
    &&& b.deps() == a.deps()
    &&& a.task_of(id) matches Some(t) && b.tasks() == a.tasks().update(a.index()[id] as int, TaskNode {
        retry_count: (t.retry_count + 1) as u32,
        status: TaskStatus::Pending,
        ..t
    })
}

/// The walk over the dependents of task `id` in `g`.
pub open spec fn all_dependents(g: TaskGraph, id: u128) -> Seq<u128> {
    walk(g, g.ids().to_set().insert(id), seq![id], Set::empty(), Seq::empty())
}

/// Whether `b` is `a` with the dependents `ds` skipped, the events `e`
/// reporting the skips and then the failure of task `id`.
pub open spec fn skipped_after_failure(a: TaskGraph, id: u128, ds: Seq<u128>, stderr: Seq<char>, b: TaskGraph, e: Seq<EventView>) -> bool {
    skipped_all(a, ds, b) && e == skip_events(found_ids(a, ds)).push(EventView::Failed { id, error: stderr })
}

/// Whether `b` and the events `e` are what follows the failure of task `id`
/// in `a` under its error policy: stop skips every task that depends on it
/// at any distance; continue skips the direct dependents; retry sets it to
/// run again while it has retries left and stops otherwise. The failure is
/// reported last.
pub open spec fn failure_handled(a: TaskGraph, id: u128, stderr: Seq<char>, b: TaskGraph, e: Seq<EventView>) -> bool {
    a.task_of(id) matches Some(t) && match t.error_policy {
        ErrorPolicy::StopOnError => skipped_after_failure(a, id, all_dependents(a, id), stderr, b, e),
        ErrorPolicy::ContinueOnError => skipped_after_failure(a, id, a.dependents_of(id), stderr, b, e),
        ErrorPolicy::RetryThenStop { max_retries } => if t.retry_count < max_retries {
            retried(a, id, b) && e == seq![EventView::Failed { id, error: stderr }]
        } else {
            skipped_after_failure(a, id, all_dependents(a, id), stderr, b, e)
        },
    }
}

/// Whether the scheduler `b` and the events `e` are what `task_completed`
/// makes of `a` when task `id` finishes with a result whose plain values
/// are `rv`, passing through the graphs `g1` (finished), `g2` (failure
/// handled) and `g3` (blocked statuses brought up to date), and the
/// scheduler `s3` that holds `g3`, from which the next batch `bt` is taken.
pub open spec fn completion_chain(
    a: TaskScheduler,
    id: u128,
    rv: (i32, Seq<char>, Seq<char>, Option<Seq<char>>, u64),
    g1: TaskGraph,
    g2: TaskGraph,
    g3: TaskGraph,
    s3: TaskScheduler,
    bt: Seq<(u128, Seq<char>, Seq<Seq<char>>)>,
    b: TaskScheduler,
    e: Seq<EventView>,
) -> bool {
    let e1 = if rv.0 == 0 { seq![EventView::Completed { id, result: rv }] } else { e.subrange(0, e.len() - bt.len() - 1) };
    &&& finished_rel(a.g(), id, rv, g1)
    &&& rv.0 == 0 ==> g2 == g1
    &&& rv.0 != 0 ==> failure_handled(g1, id, rv.2, g2, e1)
    &&& blocked_updated(g2, g3)
    &&& s3.g() == g3
    &&& s3.run() == a.run().remove(id)
    &&& s3.waiting() == a.waiting().remove(id)
    &&& s3.cfg() == a.cfg()
    &&& s3.paused_now() == a.paused_now()
    &&& s3.cancelled_all() == a.cancelled_all()
    &&& next_tasks_rel(s3, b, bt)
    &&& e == e1 + ready_events(bt) + seq![closing_event(b)]
}

/// Whether the scheduler `b` and the events `e` are what `task_completed`
/// makes of `a` when task `id` finishes with a result whose plain values are
/// `rv`: through some chain of intermediate states as `completion_chain`
/// lays out (the intermediate graphs differ only in the completion times
/// the clock gives).
pub open spec fn completed_as(a: TaskScheduler, id: u128, rv: (i32, Seq<char>, Seq<char>, Option<Seq<char>>, u64), b: TaskScheduler, e: Seq<EventView>) -> bool {
    exists|g1: TaskGraph, g2: TaskGraph, g3: TaskGraph, s3: TaskScheduler, bt: Seq<(u128, Seq<char>, Seq<Seq<char>>)>|
        #[trigger] completion_chain(a, id, rv, g1, g2, g3, s3, bt, b, e)
}

/// Whether `b` is `a` with task `id` cancelled: only its status (now
/// cancelled) and completion time (now set) change.
pub open spec fn cancelled_in(a: TaskGraph, id: u128, b: TaskGraph) -> bool {
    &&& a.wf() ==> b.wf()
    &&& b.index() == a.index()
    &&& b.deps() == a.deps()
    &&& b.tasks().len() == a.tasks().len()
    &&& found(a.index(), a.tasks().len(), id)
    &&& forall|i: int| 0 <= i < a.tasks().len() && i != a.index()[id] ==> #[trigger] b.tasks()[i] == a.tasks()[i]
    &&& b.tasks()[a.index()[id] as int].status == TaskStatus::Cancelled
    &&& b.tasks()[a.index()[id] as int].completed_at is Some
    &&& only_status_changed(a.tasks()[a.index()[id] as int], b.tasks()[a.index()[id] as int])
}

/// Whether `b` and the result `r` are what `cancel_task` makes of `a` for
/// task `id`: it stops running and waiting; a task not found, or already
/// finished, is refused with the graph unchanged; otherwise it is cancelled
/// and every task that depends on it at any distance is skipped, reported
/// in the order the walk finds them.
pub open spec fn cancel_rel(a: TaskScheduler, id: u128, b: TaskScheduler, r: Result<Vec<SchedulerEvent>, TaskError>) -> bool {
    &&& a.wf() ==> b.wf()
    &&& b.run() == a.run().remove(id)
    &&& b.waiting() == a.waiting().remove(id)
    &&& b.cfg() == a.cfg()
    &&& b.paused_now() == a.paused_now()
    &&& b.cancelled_all() == a.cancelled_all()
    &&& match a.g().task_of(id) {
        None => (r matches Err(TaskError::NotFound { id: x }) && x == id)
            && b.g().tasks() == a.g().tasks() && b.g().index() == a.g().index() && b.g().deps() == a.g().deps(),
        Some(t) => if terminal_status(t.status) {
            &&& r matches Err(TaskError::CannotCancel { id: x, state }) && x == id && state@ == crate::tasks::status_text(t.status)
            &&& b.g().tasks() == a.g().tasks() && b.g().index() == a.g().index() && b.g().deps() == a.g().deps()
        } else {
            r matches Ok(evs) && exists|g1: TaskGraph| #[trigger] cancelled_in(a.g(), id, g1)
                && skipped_all(g1, all_dependents(g1, id), b.g())
                && events_view(evs@) == skip_events(found_ids(g1, all_dependents(g1, id)))
        },
    }
}

/// The events of some lists, one after the other.
pub open spec fn flatten(es: Seq<Seq<EventView>>) -> Seq<EventView>
    decreases es.len(),
{
    if es.len() == 0 {
        Seq::empty()
    } else {
        flatten(es.drop_last()) + es.last()
    }
}

/// Whether the schedulers `ss` go from one to the next by cancelling each
/// of `ks` in turn, `es` holding the events of each step (none when it was
/// refused).
pub open spec fn cancel_steps(ss: Seq<TaskScheduler>, ks: Seq<u128>, es: Seq<Seq<EventView>>) -> bool {
    &&& ss.len() == ks.len() + 1
    &&& es.len() == ks.len()
    &&& forall|q: int| 0 <= q < ks.len() ==> #[trigger] cancel_step(ss[q], ks[q], ss[q + 1], es[q])
}

/// Whether `b` is `a` after cancelling task `id`, `e` holding the events
/// when it succeeded and none when it was refused.
pub open spec fn cancel_step(a: TaskScheduler, id: u128, b: TaskScheduler, e: Seq<EventView>) -> bool {
    exists|r: Result<Vec<SchedulerEvent>, TaskError>|
        #[trigger] cancel_rel(a, id, b, r) && e == (match r { Ok(v) => events_view(v@), Err(_) => Seq::<EventView>::empty() })
}

/// Whether `b` is what the graph's `cancel_task` makes of `a` for task `id`:
/// cancelled when found and not finished, unchanged otherwise.
pub open spec fn graph_cancel(a: TaskGraph, id: u128, b: TaskGraph) -> bool {
    match a.task_of(id) {
        Some(t) => if terminal_status(t.status) {
            (a.wf() ==> b.wf()) && b.tasks() == a.tasks() && b.index() == a.index() && b.deps() == a.deps()
        } else {
            cancelled_in(a, id, b)
        },
        None => (a.wf() ==> b.wf()) && b.tasks() == a.tasks() && b.index() == a.index() && b.deps() == a.deps(),
    }
}

/// Whether the graphs `gs` go from one to the next by cancelling each of
/// `ids` in turn.
pub open spec fn graph_cancel_steps(gs: Seq<TaskGraph>, ids: Seq<u128>) -> bool {
    &&& gs.len() == ids.len() + 1
    &&& forall|q: int| 0 <= q < ids.len() ==> #[trigger] graph_cancel(gs[q], ids[q], gs[q + 1])
}

/// Whether `b` and the events `e` are what `cancel_all` makes of `a`
/// through the running identifiers `ks` (each once, in the map's order), the
/// schedulers `ss` of cancelling them, and the graphs `gs` of cancelling the
/// tasks still pending afterwards.
pub open spec fn cancel_all_chain(
    a: TaskScheduler,
    ks: Seq<u128>,
    ss: Seq<TaskScheduler>,
    es: Seq<Seq<EventView>>,
    gs: Seq<TaskGraph>,
    b: TaskScheduler,
    e: Seq<EventView>,
) -> bool {
    &&& ks.to_set() == a.run().dom()
    &&& ks.no_duplicates()
    &&& ss.len() == ks.len() + 1
    &&& ss[0].g() == a.g() && ss[0].run() == a.run() && ss[0].waiting() == a.waiting()
    &&& ss[0].cfg() == a.cfg() && ss[0].paused_now() == a.paused_now() && ss[0].cancelled_all()
    &&& cancel_steps(ss, ks, es)
    &&& e == flatten(es)
    &&& {
        let last = ss[ks.len() as int];
        let pend = pick(last.g().ids(), |i: int| last.g().statuses()[i] == TaskStatus::Pending, last.g().tasks().len());
        &&& gs.len() == pend.len() + 1
        &&& gs[0] == last.g()
        &&& graph_cancel_steps(gs, pend)
        &&& b.g() == gs[pend.len() as int]
        &&& b.run() == last.run()
        &&& b.waiting() == last.waiting()
        &&& b.cfg() == a.cfg()
        &&& b.paused_now() == a.paused_now()
        &&& b.cancelled_all()
    }
}

/// Whether `b` and the events `e` are what `cancel_all` makes of `a`, for
/// the order in which the running tasks' map hands out their identifiers.
pub open spec fn cancel_all_rel(a: TaskScheduler, b: TaskScheduler, e: Seq<EventView>) -> bool {
    exists|ks: Seq<u128>, ss: Seq<TaskScheduler>, es: Seq<Seq<EventView>>, gs: Seq<TaskGraph>|
        #[trigger] cancel_all_chain(a, ks, ss, es, gs, b, e)
}

/// Whether `b` and the result `r` are what `task_started` makes of `a` for
/// task `id` on PTY `pty`: it no longer waits to start; the graph starts it
/// (refused for a task not found or not pending, the graph unchanged), and
/// then it runs on that PTY.
pub open spec fn started_rel(a: TaskScheduler, id: u128, pty: u128, b: TaskScheduler, r: Result<(), TaskError>) -> bool {
    &&& a.wf() ==> b.wf()
    &&& b.waiting() == a.waiting().remove(id)
    &&& b.cfg() == a.cfg()
    &&& b.paused_now() == a.paused_now()
    &&& b.cancelled_all() == a.cancelled_all()
    &&& r is Ok ==> b.run() == a.run().insert(id, pty)
    &&& r is Err ==> b.run() == a.run() && b.g().tasks() == a.g().tasks()
    &&& b.g().index() == a.g().index()
    &&& b.g().deps() == a.g().deps()
    &&& match a.g().task_of(id) {
        None => r matches Err(TaskError::NotFound { id: x }) && x == id,
        Some(t) => if t.status == TaskStatus::Pending {
            let p = a.g().index()[id] as int;
            &&& r is Ok
            &&& b.g().tasks()[p].started_at is Some
            &&& b.g().tasks() == a.g().tasks().update(p, TaskNode {
                status: TaskStatus::Running,
                pty_id: Some(pty),
                started_at: b.g().tasks()[p].started_at,
                ..t
            })
        } else {
            r matches Err(TaskError::InvalidStateTransition { from, to })
                && from@ == crate::tasks::status_text(t.status) && to@ == crate::tasks::status_text(TaskStatus::Running)
        },
    }
}

/// Whether `b` and the events `e` are what `start` makes of `a`: the
/// blocked statuses brought up to date, the ready tasks handed out as
/// `get_next_tasks` does from there, and a first progress report of none
/// finished out of all tasks, none running.
pub open spec fn started_scheduling(a: TaskScheduler, b: TaskScheduler, e: Seq<EventView>) -> bool {
    exists|s1: TaskScheduler, bt: Seq<(u128, Seq<char>, Seq<Seq<char>>)>| #[trigger] next_tasks_rel(s1, b, bt) && {
        &&& blocked_updated(a.g(), s1.g())
        &&& s1.run() == a.run() && s1.waiting() == a.waiting() && s1.cfg() == a.cfg()
        &&& s1.paused_now() == a.paused_now() && s1.cancelled_all() == a.cancelled_all()
        &&& e == ready_events(bt) + seq![EventView::Progress { completed: 0, total: b.g().tasks().len() as usize, running: 0 }]
    }
}

/// The scheduler's counts out of the graph's.
pub open spec fn stats_of(s: TaskStatistics) -> SchedulerStats {
    SchedulerStats { total: s.total, completed: s.completed, failed: s.failed, skipped: s.skipped, cancelled: s.cancelled }
}

} // verus!
