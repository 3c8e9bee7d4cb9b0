use agterm::scheduler::{SchedulerCommand, SchedulerEvent, TaskScheduler};
use agterm::taskgraph::TaskGraph;
use agterm::tasks::{ErrorPolicy, SchedulerConfig, TaskEdge, TaskNode, TaskResult, TaskStatus};

fn node(name: &str, command: &str) -> TaskNode {
    TaskNode::new(name, command, "/".to_string())
}

fn create_test_graph() -> TaskGraph {
    let mut graph = TaskGraph::new();

    let a = node("A", "echo");
    let b = node("B", "echo");
    let c = node("C", "echo");

    let a_id = graph.add_task(a.with_args(vec!["A".to_string()]));
    let b_id = graph.add_task(b.with_args(vec!["B".to_string()]));
    let c_id = graph.add_task(c.with_args(vec!["C".to_string()]));

    // B depends on A, C depends on B
    graph.add_dependency(&a_id, &b_id, TaskEdge::DependsOn).unwrap();
    graph.add_dependency(&b_id, &c_id, TaskEdge::DependsOn).unwrap();

    graph
}

#[test]
fn test_scheduler_creation() {
    let graph = create_test_graph();
    let scheduler = TaskScheduler::with_graph(graph);
    assert_eq!(scheduler.running_count(), 0);
    assert!(!scheduler.is_complete());
}

#[test]
fn test_get_next_tasks() {
    let graph = create_test_graph();
    let mut scheduler = TaskScheduler::with_graph(graph);

    let tasks = scheduler.get_next_tasks();
    assert_eq!(tasks.len(), 1);
    assert_eq!(tasks[0].1, "echo");
    assert_eq!(tasks[0].2, vec!["A".to_string()]);
}

#[test]
fn scheduler_test_task_lifecycle() {
    let graph = create_test_graph();
    let mut scheduler = TaskScheduler::with_graph(graph);

    // Get first task
    let tasks = scheduler.get_next_tasks();
    let (task_id, _, _) = tasks.into_iter().next().unwrap();

    // Start it
    let pty_id = uuid::Uuid::new_v4().as_u128();
    scheduler.task_started(task_id, pty_id).unwrap();
    assert_eq!(scheduler.running_count(), 1);

    // Complete it
    let result = TaskResult::success("A".to_string(), 100);
    let events = scheduler.task_completed(task_id, result).unwrap();

    // Should have: TaskCompleted, TaskReady (for B), Progress
    assert!(events.iter().any(|e| matches!(e, SchedulerEvent::TaskCompleted { .. })));
    assert!(events.iter().any(|e| matches!(e, SchedulerEvent::TaskReady { .. })));
}

#[test]
fn test_concurrency_limit() {
    let mut graph = TaskGraph::new();

    // Create 5 independent tasks
    for i in 0..5 {
        let task = node(&format!("Task{}", i), "echo");
        graph.add_task(task);
    }

    let config = SchedulerConfig { max_concurrent: 2, ..Default::default() };
    let mut scheduler = TaskScheduler::new(graph, config);

    let tasks = scheduler.get_next_tasks();
    assert_eq!(tasks.len(), 2); // Limited by max_concurrent
}

#[test]
fn test_pause_resume() {
    let graph = create_test_graph();
    let mut scheduler = TaskScheduler::with_graph(graph);

    // Pause
    scheduler.pause();
    let tasks = scheduler.get_next_tasks();
    assert!(tasks.is_empty());

    // Resume
    scheduler.resume();
    let tasks = scheduler.get_next_tasks();
    assert_eq!(tasks.len(), 1);
}

#[test]
fn test_error_propagation() {
    let graph = create_test_graph();
    let mut scheduler = TaskScheduler::with_graph(graph);

    // Get and start first task
    let tasks = scheduler.get_next_tasks();
    let (task_id, _, _) = tasks.into_iter().next().unwrap();
    let pty_id = uuid::Uuid::new_v4().as_u128();
    scheduler.task_started(task_id, pty_id).unwrap();

    // Fail it
    let result = TaskResult::failure(1, "error".to_string(), 100);
    let events = scheduler.task_completed(task_id, result).unwrap();

    // Should skip dependents (B and C)
    let skipped: Vec<_> = events.iter().filter(|e| matches!(e, SchedulerEvent::TaskSkipped { .. })).collect();
    assert_eq!(skipped.len(), 2);
}

fn fixed_graph() -> TaskGraph {
    let mut graph = TaskGraph::new();
    let a = graph.add_task(TaskNode::with_identity(1, "A", "echo", "/".to_string(), 0));
    let b = graph.add_task(TaskNode::with_identity(2, "B", "echo", "/".to_string(), 0));
    let c = graph.add_task(TaskNode::with_identity(3, "C", "echo", "/".to_string(), 0));
    graph.add_dependency(&a, &b, TaskEdge::DependsOn).unwrap();
    graph.add_dependency(&b, &c, TaskEdge::DependsOn).unwrap();
    graph
}

#[test]
fn scheduler_full_run_reports_all_complete() {
    let mut s = TaskScheduler::with_graph(fixed_graph());
    let first = s.start();
    assert!(matches!(first[0], SchedulerEvent::TaskReady { task_id: 1, .. }));
    assert!(matches!(first[1], SchedulerEvent::Progress { completed: 0, total: 3, running: 0 }));
    for (id, next) in [(1u128, 2u128), (2, 3)] {
        s.task_started(id, 100 + id).unwrap();
        let ev = s.task_completed(id, TaskResult::success(String::new(), 1)).unwrap();
        assert!(matches!(ev[0], SchedulerEvent::TaskCompleted { task_id, .. } if task_id == id));
        assert!(matches!(ev[1], SchedulerEvent::TaskReady { task_id, .. } if task_id == next));
        assert!(matches!(ev[2], SchedulerEvent::Progress { running: 0, total: 3, .. }));
    }
    s.task_started(3, 103).unwrap();
    let ev = s.task_completed(3, TaskResult::success(String::new(), 1)).unwrap();
    match &ev[1] {
        SchedulerEvent::AllComplete { stats } => {
            assert_eq!(stats.total, 3);
            assert_eq!(stats.completed, 3);
        },
        _ => panic!("no completion report"),
    }
    assert!(s.is_complete());
}

#[test]
fn scheduler_retry_then_stop() {
    let mut graph = TaskGraph::new();
    let a = graph.add_task(
        TaskNode::with_identity(1, "A", "flaky", "/".to_string(), 0)
            .with_error_policy(ErrorPolicy::RetryThenStop { max_retries: 1 }),
    );
    let b = graph.add_task(TaskNode::with_identity(2, "B", "echo", "/".to_string(), 0));
    graph.add_dependency(&a, &b, TaskEdge::DependsOn).unwrap();
    let mut s = TaskScheduler::with_graph(graph);
    assert_eq!(s.get_next_tasks().len(), 1);
    s.task_started(1, 9).unwrap();
    let ev = s.task_completed(1, TaskResult::failure(3, "bad".to_string(), 1)).unwrap();
    assert!(matches!(&ev[0], SchedulerEvent::TaskFailed { task_id: 1, error } if error == "bad"));
    assert!(matches!(ev[1], SchedulerEvent::TaskReady { task_id: 1, .. }));
    assert_eq!(s.graph().get_task(&1).unwrap().retry_count, 1);
    s.task_started(1, 9).unwrap();
    let ev = s.task_completed(1, TaskResult::failure(3, "bad".to_string(), 1)).unwrap();
    assert!(matches!(ev[0], SchedulerEvent::TaskSkipped { task_id: 2 }));
    assert!(matches!(ev[1], SchedulerEvent::TaskFailed { task_id: 1, .. }));
    assert_eq!(s.graph().get_task(&2).unwrap().status, TaskStatus::Skipped);
}

#[test]
fn scheduler_cancel_and_commands() {
    let mut s = TaskScheduler::with_graph(fixed_graph());
    s.start();
    let (ev, done) = s.handle_command(SchedulerCommand::TaskStarted { task_id: 1, pty_id: 5 });
    assert!(ev.is_empty());
    assert!(!done);
    let (ev, _) = s.handle_command(SchedulerCommand::TaskStarted { task_id: 3, pty_id: 6 });
    assert!(matches!(&ev[0], SchedulerEvent::TaskFailed { task_id: 3, error } if error.starts_with("invalid state transition")));
    let ev = s.cancel_task(1).unwrap();
    assert_eq!(ev.len(), 2);
    assert!(matches!(ev[0], SchedulerEvent::TaskSkipped { task_id: 2 }));
    assert!(matches!(ev[1], SchedulerEvent::TaskSkipped { task_id: 3 }));
    assert_eq!(s.running_count(), 0);
    assert!(s.cancel_task(1).is_err());
    let (_, done) = s.handle_command(SchedulerCommand::Pause);
    assert!(s.is_paused());
    assert!(done);
}

#[test]
fn scheduler_cancel_all_stops_everything() {
    let mut graph = TaskGraph::new();
    graph.add_task(TaskNode::with_identity(1, "A", "echo", "/".to_string(), 0));
    graph.add_task(TaskNode::with_identity(2, "B", "echo", "/".to_string(), 0));
    let mut s = TaskScheduler::new(graph, SchedulerConfig { max_concurrent: 1, error_policy: ErrorPolicy::StopOnError });
    s.start();
    s.task_started(1, 7).unwrap();
    let ev = s.cancel_all();
    assert!(ev.is_empty());
    assert_eq!(s.graph().get_task(&1).unwrap().status, TaskStatus::Cancelled);
    assert_eq!(s.graph().get_task(&2).unwrap().status, TaskStatus::Cancelled);
    assert!(s.get_next_tasks().is_empty());
}
