use up::graph::TaskGraph;
use up::schedule::{NodeState, Outcome, Scheduler, Step};
use up::select::eligible_tasks;
use up::task::{Task, TaskConfig};

fn strings(v: &[&str]) -> Vec<String> {
    v.iter().map(|s| s.to_string()).collect()
}

fn task(name: &str, requires: &[&str], auto_run: bool) -> Task {
    let config = TaskConfig {
        name: Some(name.to_string()),
        constraints: None,
        requires: Some(strings(requires)),
        auto_run: Some(auto_run),
        run_lib: None,
        run_if_cmd: None,
        run_cmd: Some(strings(&["true"])),
        description: None,
        needs_sudo: false,
        data: None,
    };
    Task::from(&format!("tasks/{name}.yaml"), config).unwrap()
}

fn scheduler(tasks: Vec<Task>, boot: &[&str], bootstrap: bool, keep_going: bool, limit: usize) -> Scheduler {
    let eligible = eligible_tasks(&tasks, &None, &None, &Vec::new());
    let g = TaskGraph::build(&tasks, &eligible).unwrap();
    Scheduler::new(g, &strings(boot), bootstrap, keep_going, limit)
}

fn node(s: &Scheduler, name: &str) -> usize {
    s.graph.names.iter().position(|n| n == name).unwrap()
}

#[test]
fn dependents_start_after_their_dependency() {
    let tasks = vec![task("A", &[], true), task("B", &["A"], true), task("C", &["A"], true)];
    let mut s = scheduler(tasks, &[], false, false, 4);
    let a = node(&s, "A");
    assert_eq!(s.next_step(), Step::Start(a));
    assert_eq!(s.next_step(), Step::Wait);
    s.complete(a, Outcome::Passed);
    let first = s.next_step();
    let second = s.next_step();
    let mut started = vec![first, second];
    started.sort_by_key(|st| match st {
        Step::Start(t) => *t,
        _ => usize::MAX,
    });
    assert_eq!(started, vec![Step::Start(node(&s, "B")), Step::Start(node(&s, "C"))]);
    assert_eq!(s.next_step(), Step::Wait);
    s.complete(node(&s, "C"), Outcome::Passed);
    s.complete(node(&s, "B"), Outcome::Skipped);
    assert_eq!(s.next_step(), Step::Finished);
    assert!(!s.run_failed());
}

#[test]
fn bootstrap_list_runs_alone_in_order() {
    let tasks = vec![task("X", &[], true), task("Y", &[], true), task("Z", &[], false), task("W", &[], false)];
    let mut s = scheduler(tasks, &["X", "Y"], true, false, 4);
    assert_eq!(s.graph.names, strings(&["X", "Y"]));
    let x = node(&s, "X");
    let y = node(&s, "Y");
    assert_eq!(s.next_step(), Step::Start(x));
    assert_eq!(s.next_step(), Step::Wait);
    s.complete(x, Outcome::Passed);
    assert_eq!(s.next_step(), Step::Start(y));
    assert_eq!(s.next_step(), Step::Wait);
    s.complete(y, Outcome::Passed);
    assert_eq!(s.next_step(), Step::Finished);
}

#[test]
fn bootstrap_ignores_names_not_eligible() {
    let tasks = vec![task("X", &[], true)];
    let s = scheduler(tasks, &["missing", "X", "X"], true, false, 1);
    assert_eq!(s.bootstrap, vec![0, 0]);
}

#[test]
fn bootstrap_failure_stops_the_run() {
    let tasks = vec![task("X", &[], true), task("Y", &[], true), task("P", &[], true)];
    let mut s = scheduler(tasks, &["X", "Y"], true, false, 4);
    let x = node(&s, "X");
    assert_eq!(s.next_step(), Step::Start(x));
    s.complete(x, Outcome::Failed);
    assert_eq!(s.next_step(), Step::Finished);
    assert!(s.aborted);
    assert!(s.run_failed());
    assert_eq!(s.states[node(&s, "Y")], NodeState::Pending);
    assert_eq!(s.states[node(&s, "P")], NodeState::Pending);
}

#[test]
fn keep_going_finishes_every_task_despite_failures() {
    let tasks = vec![task("X", &[], true), task("Y", &["X"], true), task("P", &[], true), task("Q", &["Y"], true)];
    let mut s = scheduler(tasks, &["X"], true, true, 2);
    let x = node(&s, "X");
    assert_eq!(s.next_step(), Step::Start(x));
    s.complete(x, Outcome::Failed);
    let p = node(&s, "P");
    assert_eq!(s.next_step(), Step::Start(p));
    s.complete(p, Outcome::Passed);
    assert_eq!(s.next_step(), Step::Finished);
    assert_eq!(s.states[node(&s, "Y")], NodeState::Done(Outcome::Blocked));
    assert_eq!(s.states[node(&s, "Q")], NodeState::Done(Outcome::Blocked));
    assert!(s.states.iter().all(|st| matches!(st, NodeState::Done(_))));
    assert!(!s.run_failed());
}

#[test]
fn parallel_failure_without_keep_going_fails_the_run() {
    let tasks = vec![task("A", &[], true), task("B", &["A"], true), task("C", &[], true)];
    let mut s = scheduler(tasks, &[], false, false, 1);
    let a = node(&s, "A");
    let c = node(&s, "C");
    assert_eq!(s.next_step(), Step::Start(a));
    assert_eq!(s.next_step(), Step::Wait);
    s.complete(a, Outcome::Failed);
    assert_eq!(s.next_step(), Step::Start(c));
    s.complete(c, Outcome::Passed);
    assert_eq!(s.next_step(), Step::Finished);
    assert_eq!(s.states[node(&s, "B")], NodeState::Done(Outcome::Blocked));
    assert!(s.run_failed());
}

#[test]
fn worker_limit_bounds_running_tasks() {
    let tasks = vec![task("A", &[], true), task("B", &[], true), task("C", &[], true)];
    let mut s = scheduler(tasks, &[], false, false, 2);
    assert!(matches!(s.next_step(), Step::Start(_)));
    assert!(matches!(s.next_step(), Step::Start(_)));
    assert_eq!(s.next_step(), Step::Wait);
    assert_eq!(s.running, 2);
}

fn finish_run(order: &[&str], outcomes: &[(&str, Outcome)]) -> Vec<NodeState> {
    let tasks = vec![task("A", &[], true), task("B", &["A"], true), task("C", &[], true), task("D", &["C"], true)];
    let mut s = scheduler(tasks, &[], false, true, 4);
    let outcome_of = |name: &str| outcomes.iter().find(|(n, _)| *n == name).unwrap().1;
    let mut running: Vec<usize> = Vec::new();
    let mut pick = order.iter();
    loop {
        match s.next_step() {
            Step::Start(t) => running.push(t),
            Step::Wait => {
                let name = pick.next().unwrap();
                let t = node(&s, name);
                assert!(running.contains(&t));
                running.retain(|r| *r != t);
                s.complete(t, outcome_of(name));
            }
            Step::Finished => break,
        }
    }
    s.states.clone()
}

#[test]
fn reruns_skip_the_same_tasks_whatever_the_order() {
    let outcomes = [("A", Outcome::Skipped), ("B", Outcome::Passed), ("C", Outcome::Failed), ("D", Outcome::Passed)];
    let first = finish_run(&["A", "C", "B"], &outcomes);
    let second = finish_run(&["C", "A", "B"], &outcomes);
    assert_eq!(first, second);
    assert_eq!(first[3], NodeState::Done(Outcome::Blocked));
    assert_eq!(first[0], NodeState::Done(Outcome::Skipped));
}
