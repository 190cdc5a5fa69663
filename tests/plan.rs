use up::error::ConfigError;
use up::graph::TaskGraph;
use up::select::{eligible_tasks, is_eligible};
use up::task::{Task, TaskConfig, TaskStatus};

fn strings(v: &[&str]) -> Vec<String> {
    v.iter().map(|s| s.to_string()).collect()
}

fn config(name: &str, requires: &[&str]) -> TaskConfig {
    TaskConfig {
        name: Some(name.to_string()),
        constraints: None,
        requires: if requires.is_empty() { None } else { Some(strings(requires)) },
        auto_run: None,
        run_lib: None,
        run_if_cmd: None,
        run_cmd: Some(strings(&["true"])),
        description: None,
        needs_sudo: false,
        data: None,
    }
}

fn task(name: &str, requires: &[&str]) -> Task {
    Task::from(&format!("tasks/{name}.yaml"), config(name, requires)).unwrap()
}

fn no_env() -> Vec<(String, String)> {
    Vec::new()
}

#[test]
fn task_name_defaults_to_file_stem() {
    let mut c = config("x", &[]);
    c.name = None;
    let t = Task::from("some/dir/brew.yaml", c).unwrap();
    assert_eq!(t.name, "brew");
    assert_eq!(t.path, "some/dir/brew.yaml");
    assert!(matches!(t.status, TaskStatus::Incomplete));
}

#[test]
fn task_without_action_is_invalid() {
    let mut c = config("a", &[]);
    c.run_cmd = None;
    match Task::from("tasks/a.yaml", c) {
        Err(ConfigError::InvalidTask { name }) => assert_eq!(name, "a"),
        other => panic!("unexpected {other:?}"),
    }
}

#[test]
fn task_with_both_actions_is_ambiguous() {
    let mut c = config("a", &[]);
    c.run_lib = Some("link".to_string());
    assert!(matches!(Task::from("tasks/a.yaml", c), Err(ConfigError::AmbiguousTask { .. })));
}

#[test]
fn task_requiring_itself_is_refused() {
    let c = config("a", &["b", "a"]);
    match Task::from("tasks/a.yaml", c) {
        Err(ConfigError::SelfDependency { name }) => assert_eq!(name, "a"),
        other => panic!("unexpected {other:?}"),
    }
}

#[test]
fn task_with_empty_name_is_refused() {
    let c = config("", &[]);
    assert!(matches!(Task::from("tasks/a.yaml", c), Err(ConfigError::EmptyName { .. })));
}

#[test]
fn task_path_without_file_name_is_refused() {
    let mut c = config("x", &[]);
    c.name = None;
    assert!(matches!(Task::from("/", c), Err(ConfigError::NoName { .. })));
}

#[test]
fn allow_and_exclude_lists_leave_only_a() {
    let tasks = vec![task("A", &[]), task("B", &[]), task("C", &[])];
    let allow = Some(strings(&["A", "B"]));
    let exclude = Some(strings(&["B"]));
    assert_eq!(eligible_tasks(&tasks, &allow, &exclude, &no_env()), vec![0]);
}

#[test]
fn exclude_wins_over_allow() {
    let t = task("A", &[]);
    let both = Some(strings(&["A"]));
    assert!(!is_eligible(&t, &both, &both, &no_env()));
    assert!(is_eligible(&t, &both, &None, &no_env()));
}

#[test]
fn unknown_list_names_match_nothing() {
    let tasks = vec![task("A", &[]), task("B", &[])];
    let exclude = Some(strings(&["nope"]));
    assert_eq!(eligible_tasks(&tasks, &None, &exclude, &no_env()), vec![0, 1]);
}

#[test]
fn constraints_must_match_environment() {
    let mut c = config("mac", &[]);
    c.constraints = Some(vec![("os".to_string(), "macos".to_string())]);
    let t = Task::from("tasks/mac.yaml", c).unwrap();
    let linux = vec![("os".to_string(), "linux".to_string())];
    let macos = vec![("os".to_string(), "macos".to_string()), ("os".to_string(), "linux".to_string())];
    let shadowed = vec![("os".to_string(), "linux".to_string()), ("os".to_string(), "macos".to_string())];
    assert!(!is_eligible(&t, &None, &None, &linux));
    assert!(is_eligible(&t, &None, &None, &macos));
    assert!(!is_eligible(&t, &None, &None, &shadowed));
    assert!(!is_eligible(&t, &None, &None, &no_env()));
}

#[test]
fn tasks_without_auto_run_need_the_allow_list() {
    let mut c = config("manual", &[]);
    c.auto_run = Some(false);
    let t = Task::from("tasks/manual.yaml", c).unwrap();
    assert!(!is_eligible(&t, &None, &None, &no_env()));
    assert!(!is_eligible(&t, &Some(Vec::new()), &None, &no_env()));
    assert!(is_eligible(&t, &Some(strings(&["manual"])), &None, &no_env()));
}

#[test]
fn graph_orders_dependencies_first() {
    let tasks = vec![task("B", &["A"]), task("C", &["A"]), task("A", &[])];
    let g = TaskGraph::build(&tasks, &vec![0, 1, 2]).unwrap();
    assert_eq!(g.deps, vec![vec![2], vec![2], vec![]]);
    assert_eq!(g.order[0], 2);
    for t in 0..3 {
        assert_eq!(g.order[g.rank[t]], t);
    }
}

#[test]
fn mutual_requirement_is_a_cycle() {
    let tasks = vec![task("A", &["B"]), task("B", &["A"])];
    match TaskGraph::build(&tasks, &vec![0, 1]) {
        Err(ConfigError::CyclicDependency { cycle }) => {
            assert_eq!(cycle.len(), 2);
            assert!(cycle.contains(&"A".to_string()));
            assert!(cycle.contains(&"B".to_string()));
        }
        Err(e) => panic!("unexpected {e:?}"),
        Ok(_) => panic!("a cycle was accepted"),
    }
}

#[test]
fn longer_cycle_names_its_members_in_order() {
    let tasks = vec![task("A", &["B"]), task("B", &["C"]), task("C", &["A"]), task("D", &[])];
    match TaskGraph::build(&tasks, &vec![0, 1, 2, 3]) {
        Err(ConfigError::CyclicDependency { cycle }) => {
            assert_eq!(cycle, strings(&["A", "B", "C"]));
        }
        Err(e) => panic!("unexpected {e:?}"),
        Ok(_) => panic!("a cycle was accepted"),
    }
}

#[test]
fn dependency_on_filtered_task_is_excluded() {
    let tasks = vec![task("A", &[]), task("B", &["A"])];
    match TaskGraph::build(&tasks, &vec![1]) {
        Err(ConfigError::DependencyExcluded { task, dependency }) => {
            assert_eq!(task, "B");
            assert_eq!(dependency, "A");
        }
        Err(e) => panic!("unexpected {e:?}"),
        Ok(_) => panic!("accepted"),
    }
}

#[test]
fn dependency_on_missing_task_is_unknown() {
    let tasks = vec![task("B", &["ghost"])];
    match TaskGraph::build(&tasks, &vec![0]) {
        Err(ConfigError::UnknownDependency { task, dependency }) => {
            assert_eq!(task, "B");
            assert_eq!(dependency, "ghost");
        }
        Err(e) => panic!("unexpected {e:?}"),
        Ok(_) => panic!("accepted"),
    }
}

#[test]
fn shared_names_are_refused() {
    let tasks = vec![task("A", &[]), task("A", &[])];
    match TaskGraph::build(&tasks, &vec![0]) {
        Err(ConfigError::DuplicateName { name }) => assert_eq!(name, "A"),
        Err(e) => panic!("unexpected {e:?}"),
        Ok(_) => panic!("accepted"),
    }
}

#[test]
fn empty_task_set_builds_empty_graph() {
    let tasks: Vec<Task> = Vec::new();
    let g = TaskGraph::build(&tasks, &Vec::new()).unwrap();
    assert!(g.names.is_empty());
}

#[test]
fn plan_keeps_only_allowed_and_not_excluded() {
    let tasks = vec![task("A", &[]), task("B", &[]), task("C", &["A"])];
    let g = TaskGraph::plan(&tasks, &Some(strings(&["A", "B"])), &Some(strings(&["B"])), &no_env()).unwrap();
    assert_eq!(g.names, strings(&["A"]));
    assert_eq!(g.tasks, vec![0]);
}

#[test]
fn plan_fails_before_running_on_cycle() {
    let tasks = vec![task("A", &["B"]), task("B", &["A"])];
    assert!(matches!(
        TaskGraph::plan(&tasks, &None, &None, &no_env()),
        Err(ConfigError::CyclicDependency { .. })
    ));
}
