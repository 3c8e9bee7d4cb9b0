use agterm::taskgraph::{TaskError, TaskGraph};
use agterm::tasks::{ErrorPolicy, TaskEdge, TaskNode, TaskResult, TaskStatus};

fn node(name: &str, command: &str) -> TaskNode {
    TaskNode::new(name, command, "/".to_string())
}

fn env_value<'a>(task: &'a TaskNode, key: &str) -> Option<&'a String> {
    task.env.iter().find(|p| p.0 == key).map(|p| &p.1)
}

#[test]
fn test_task_creation() {
    let task = node("Build", "npm run build");
    assert_eq!(task.name, "Build");
    assert_eq!(task.command, "npm run build");
    assert_eq!(task.status, TaskStatus::Pending);
    assert!(task.result.is_none());
}

#[test]
fn test_task_builder() {
    let task = node("Test", "cargo test")
        .with_args(vec!["--release".to_string()])
        .with_env("RUST_LOG", "debug")
        .with_error_policy(ErrorPolicy::ContinueOnError);

    assert_eq!(task.args, vec!["--release"]);
    assert_eq!(env_value(&task, "RUST_LOG"), Some(&"debug".to_string()));
    assert_eq!(task.error_policy, ErrorPolicy::ContinueOnError);
}

#[test]
fn model_test_task_lifecycle() {
    let mut task = node("Test", "echo hello");
    let pty_id = uuid::Uuid::new_v4().as_u128();

    // Start
    task.start(pty_id);
    assert_eq!(task.status, TaskStatus::Running);
    assert_eq!(task.pty_id, Some(pty_id));
    assert!(task.started_at.is_some());

    // Complete
    let result = TaskResult::success("hello".to_string(), 100);
    task.complete(result);
    assert_eq!(task.status, TaskStatus::Completed);
    assert!(task.completed_at.is_some());
    assert!(task.result.is_some());
}

#[test]
fn test_graph_creation() {
    let graph = TaskGraph::new();
    assert!(graph.is_empty());
    assert_eq!(graph.task_count(), 0);
}

#[test]
fn test_add_task() {
    let mut graph = TaskGraph::new();
    let task = node("Build", "npm run build");
    let id = graph.add_task(task);

    assert_eq!(graph.task_count(), 1);
    assert!(graph.get_task(&id).is_some());
}

#[test]
fn test_add_dependency() {
    let mut graph = TaskGraph::new();

    let build = node("Build", "npm run build");
    let test = node("Test", "npm test");

    let build_id = graph.add_task(build);
    let test_id = graph.add_task(test);

    // Test depends on Build
    graph.add_dependency(&build_id, &test_id, TaskEdge::DependsOn).unwrap();

    let deps = graph.get_dependencies(&test_id);
    assert_eq!(deps, vec![build_id]);

    let dependents = graph.get_dependents(&build_id);
    assert_eq!(dependents, vec![test_id]);
}

#[test]
fn test_cycle_detection() {
    let mut graph = TaskGraph::new();

    let a = node("A", "echo A");
    let b = node("B", "echo B");

    let a_id = graph.add_task(a);
    let b_id = graph.add_task(b);

    // A -> B
    graph.add_dependency(&a_id, &b_id, TaskEdge::DependsOn).unwrap();

    // B -> A (would create cycle)
    let result = graph.add_dependency(&b_id, &a_id, TaskEdge::DependsOn);
    assert!(result.is_err());
}

#[test]
fn test_topological_order() {
    let mut graph = TaskGraph::new();

    let a = node("A", "echo A");
    let b = node("B", "echo B");
    let c = node("C", "echo C");

    let a_id = graph.add_task(a);
    let b_id = graph.add_task(b);
    let c_id = graph.add_task(c);

    // A -> B -> C
    graph.add_dependency(&a_id, &b_id, TaskEdge::DependsOn).unwrap();
    graph.add_dependency(&b_id, &c_id, TaskEdge::DependsOn).unwrap();

    let order = graph.topological_order().unwrap();
    let a_pos = order.iter().position(|&id| id == a_id).unwrap();
    let b_pos = order.iter().position(|&id| id == b_id).unwrap();
    let c_pos = order.iter().position(|&id| id == c_id).unwrap();

    assert!(a_pos < b_pos);
    assert!(b_pos < c_pos);
}

#[test]
fn test_ready_tasks() {
    let mut graph = TaskGraph::new();

    let a = node("A", "echo A");
    let b = node("B", "echo B");

    let a_id = graph.add_task(a);
    let b_id = graph.add_task(b);

    // B depends on A
    graph.add_dependency(&a_id, &b_id, TaskEdge::DependsOn).unwrap();

    // Initially, only A is ready
    let ready = graph.get_ready_tasks();
    assert_eq!(ready, vec![a_id]);

    // Complete A
    graph.complete_task(&a_id, TaskResult::success("done".to_string(), 100)).unwrap();

    // Now B is ready
    let ready = graph.get_ready_tasks();
    assert_eq!(ready, vec![b_id]);
}

#[test]
fn test_statistics() {
    let mut graph = TaskGraph::new();

    let a = node("A", "echo A");
    let b = node("B", "echo B");
    let c = node("C", "echo C");

    let a_id = graph.add_task(a);
    graph.add_task(b);
    graph.add_task(c);

    graph.complete_task(&a_id, TaskResult::success("done".to_string(), 100)).unwrap();

    let stats = graph.statistics();
    assert_eq!(stats.total, 3);
    assert_eq!(stats.completed, 1);
    assert_eq!(stats.pending, 2);
}

#[test]
fn graph_cycle_refusal_leaves_graph_unchanged() {
    let mut graph = TaskGraph::new();
    let a_id = graph.add_task(TaskNode::with_identity(1, "A", "echo", "/".to_string(), 0));
    let b_id = graph.add_task(TaskNode::with_identity(2, "B", "echo", "/".to_string(), 0));
    graph.add_dependency(&a_id, &b_id, TaskEdge::DependsOn).unwrap();
    match graph.add_dependency(&b_id, &a_id, TaskEdge::DependsOn) {
        Err(TaskError::CircularDependency { cycle }) => assert_eq!(cycle, vec![2, 1]),
        _ => panic!("cycle not refused"),
    }
    assert!(!graph.has_cycle());
    assert_eq!(graph.get_dependencies(&a_id), Vec::<u128>::new());
    assert_eq!(graph.get_dependencies(&b_id), vec![1]);
    assert_eq!(graph.topological_order().unwrap(), vec![1, 2]);
}

#[test]
fn graph_self_dependency_is_a_cycle() {
    let mut graph = TaskGraph::new();
    let a_id = graph.add_task(TaskNode::with_identity(7, "A", "echo", "/".to_string(), 0));
    assert!(graph.add_dependency(&a_id, &a_id, TaskEdge::DependsOn).is_err());
    assert_eq!(graph.get_dependencies(&a_id), Vec::<u128>::new());
}

#[test]
fn graph_missing_task_errors() {
    let mut graph = TaskGraph::new();
    let a_id = graph.add_task(TaskNode::with_identity(1, "A", "echo", "/".to_string(), 0));
    match graph.add_dependency(&a_id, &9, TaskEdge::DependsOn) {
        Err(TaskError::NotFound { id }) => assert_eq!(id, 9),
        _ => panic!("missing task not reported"),
    }
    match graph.add_dependency(&8, &a_id, TaskEdge::DependsOn) {
        Err(TaskError::NotFound { id }) => assert_eq!(id, 8),
        _ => panic!("missing task not reported"),
    }
    assert!(matches!(graph.start_task(&5, 1), Err(TaskError::NotFound { id: 5 })));
    assert!(matches!(graph.cancel_task(&5), Err(TaskError::NotFound { id: 5 })));
}

#[test]
fn graph_start_and_cancel_rules() {
    let mut graph = TaskGraph::new();
    let a_id = graph.add_task(TaskNode::with_identity(1, "A", "echo", "/".to_string(), 0));
    graph.start_task(&a_id, 42).unwrap();
    assert_eq!(graph.get_task(&a_id).unwrap().status, TaskStatus::Running);
    assert_eq!(graph.get_task(&a_id).unwrap().pty_id, Some(42));
    match graph.start_task(&a_id, 43) {
        Err(TaskError::InvalidStateTransition { from, to }) => {
            assert_eq!(from, "\u{25b6}\u{fe0f} Running");
            assert_eq!(to, "\u{25b6}\u{fe0f} Running");
        },
        _ => panic!("second start accepted"),
    }
    graph.complete_task(&a_id, TaskResult::failure(2, "boom".to_string(), 5)).unwrap();
    assert_eq!(graph.get_task(&a_id).unwrap().status, TaskStatus::Failed);
    match graph.cancel_task(&a_id) {
        Err(TaskError::CannotCancel { id, state }) => {
            assert_eq!(id, 1);
            assert_eq!(state, "\u{274c} Failed");
        },
        _ => panic!("finished task cancelled"),
    }
}

#[test]
fn graph_blocked_status_and_failed_dependencies() {
    let mut graph = TaskGraph::new();
    let a = graph.add_task(TaskNode::with_identity(1, "A", "echo", "/".to_string(), 0));
    let b = graph.add_task(TaskNode::with_identity(2, "B", "echo", "/".to_string(), 0));
    let c = graph.add_task(TaskNode::with_identity(3, "C", "echo", "/".to_string(), 0));
    graph.add_dependency(&a, &b, TaskEdge::DependsOn).unwrap();
    graph.add_dependency(&a, &c, TaskEdge::SoftDependsOn).unwrap();
    graph.update_blocked_status();
    assert_eq!(graph.get_task(&a).unwrap().status, TaskStatus::Pending);
    assert_eq!(graph.get_task(&b).unwrap().status, TaskStatus::Blocked);
    assert_eq!(graph.get_task(&c).unwrap().status, TaskStatus::Blocked);
    graph.complete_task(&a, TaskResult::failure(1, "no".to_string(), 1)).unwrap();
    assert!(graph.has_failed_dependency(&b));
    assert!(!graph.has_failed_dependency(&c));
    graph.update_blocked_status();
    assert_eq!(graph.get_task(&b).unwrap().status, TaskStatus::Skipped);
    assert!(graph.get_task(&b).unwrap().completed_at.is_some());
    assert_eq!(graph.get_task(&c).unwrap().status, TaskStatus::Blocked);
    assert!(graph.is_complete() == false);
    assert_eq!(graph.get_root_tasks(), vec![1]);
    assert_eq!(graph.get_leaf_tasks(), vec![2, 3]);
    assert_eq!(graph.get_tasks_by_status(TaskStatus::Blocked), vec![3]);
    assert_eq!(graph.get_dependents(&a), vec![3, 2]);
}

#[test]
fn graph_remove_task_moves_last_into_place() {
    let mut graph = TaskGraph::new();
    let a = graph.add_task(TaskNode::with_identity(1, "A", "echo", "/".to_string(), 0));
    let b = graph.add_task(TaskNode::with_identity(2, "B", "echo", "/".to_string(), 0));
    let c = graph.add_task(TaskNode::with_identity(3, "C", "echo", "/".to_string(), 0));
    graph.add_dependency(&a, &b, TaskEdge::DependsOn).unwrap();
    graph.add_dependency(&b, &c, TaskEdge::DependsOn).unwrap();
    let removed = graph.remove_task(&a).unwrap();
    assert_eq!(removed.id, 1);
    assert_eq!(graph.task_count(), 2);
    assert!(graph.get_task(&a).is_none());
    assert_eq!(graph.all_task_ids(), vec![3, 2]);
    assert_eq!(graph.get_dependencies(&b), Vec::<u128>::new());
    assert!(graph.remove_task(&a).is_none());
}

#[test]
fn task_full_command_and_duration() {
    let t = TaskNode::with_identity(1, "T", "cargo", "/".to_string(), 0)
        .with_args(vec!["test".to_string(), "--release".to_string()]);
    assert_eq!(t.full_command(), "cargo test --release");
    assert_eq!(TaskNode::with_identity(1, "T", "ls", "/".to_string(), 0).full_command(), "ls");
    let mut t = t;
    assert_eq!(t.duration_ms_at(500), None);
    t.start_at(9, 1000);
    assert_eq!(t.duration_ms_at(1250), Some(250));
    assert_eq!(t.duration_ms_at(900), Some(0));
    t.complete_at(TaskResult::success(String::new(), 0), 4000);
    assert_eq!(t.duration_ms_at(99999), Some(3000));
}

#[test]
fn graph_remove_task_keeps_other_dependencies_in_order() {
    let mut graph = TaskGraph::new();
    let ids: Vec<u128> = (1..=6)
        .map(|i| graph.add_task(TaskNode::with_identity(i, "T", "echo", "/".to_string(), 0)))
        .collect();
    graph.add_dependency(&ids[0], &ids[1], TaskEdge::DependsOn).unwrap();
    graph.add_dependency(&ids[2], &ids[3], TaskEdge::DependsOn).unwrap();
    graph.add_dependency(&ids[4], &ids[3], TaskEdge::SoftDependsOn).unwrap();
    graph.add_dependency(&ids[4], &ids[5], TaskEdge::DependsOn).unwrap();
    graph.remove_task(&ids[0]).unwrap();
    assert_eq!(graph.all_task_ids(), vec![6, 2, 3, 4, 5]);
    assert_eq!(graph.get_dependencies(&4), vec![5, 3]);
    assert_eq!(graph.get_dependents(&5), vec![6, 4]);
    assert_eq!(graph.get_dependencies(&2), Vec::<u128>::new());
    assert!(graph.topological_order().is_ok());
    // A refused dependency leaves every list as it was.
    assert!(graph.add_dependency(&4, &3, TaskEdge::DependsOn).is_err());
    assert_eq!(graph.get_dependencies(&4), vec![5, 3]);
    assert_eq!(graph.get_dependents(&3), vec![4]);
}
