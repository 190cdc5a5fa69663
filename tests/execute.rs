use up::config::ConfigYaml;
use up::error::TaskError;
use up::execute::{library_of, Action, Ending, Library};
use up::expand::{substitute, substitute_all};
use up::paths::{fixtures_dir, test_path, up_binary_path};
use up::payload::{shorten_branch_ref, LinkOptions};
use up::schedule::Outcome;
use up::status::{exit_meaning, CommandType, ExitMeaning};
use up::task::{Task, TaskConfig, TaskStatus};

fn strings(v: &[&str]) -> Vec<String> {
    v.iter().map(|s| s.to_string()).collect()
}

fn env() -> Vec<(String, String)> {
    vec![
        ("HOME".to_string(), "/home/me".to_string()),
        ("A".to_string(), "x".to_string()),
        ("A".to_string(), "shadowed".to_string()),
    ]
}

fn shell_task(gate: Option<&[&str]>, cmd: &[&str]) -> Task {
    let config = TaskConfig {
        name: Some("t".to_string()),
        constraints: None,
        requires: None,
        auto_run: None,
        run_lib: None,
        run_if_cmd: gate.map(strings),
        run_cmd: Some(strings(cmd)),
        description: None,
        needs_sudo: false,
        data: None,
    };
    Task::from("tasks/t.yaml", config).unwrap()
}

fn lib_task(lib: &str, with_data: bool) -> Task {
    let config = TaskConfig {
        name: Some("l".to_string()),
        constraints: None,
        requires: None,
        auto_run: None,
        run_lib: Some(lib.to_string()),
        run_if_cmd: None,
        run_cmd: None,
        description: None,
        needs_sudo: false,
        data: if with_data { Some(serde_yaml::Value::Bool(true)) } else { None },
    };
    Task::from("tasks/l.yaml", config).unwrap()
}

#[test]
fn exit_codes_map_to_statuses() {
    assert_eq!(exit_meaning(Some(0)), ExitMeaning::Passed);
    assert_eq!(exit_meaning(Some(204)), ExitMeaning::Skipped);
    assert_eq!(exit_meaning(Some(1)), ExitMeaning::Failed);
    assert_eq!(exit_meaning(Some(-1)), ExitMeaning::Failed);
    assert_eq!(exit_meaning(Some(205)), ExitMeaning::Failed);
    assert_eq!(exit_meaning(None), ExitMeaning::Failed);
}

#[test]
fn command_types_have_names() {
    assert_eq!(CommandType::Run.describe(), "run command");
    assert_eq!(CommandType::RunIf.describe(), "run_if command");
}

#[test]
fn variables_are_substituted() {
    let e = env();
    assert_eq!(substitute(&"$HOME/bin".to_string(), &e).unwrap(), "/home/me/bin");
    assert_eq!(substitute(&"${A}y".to_string(), &e).unwrap(), "xy");
    assert_eq!(substitute(&"$Ay".to_string(), &e), Err("Ay".to_string()));
    assert_eq!(substitute(&"cost $ 5".to_string(), &e).unwrap(), "cost $ 5");
    assert_eq!(substitute(&"${A".to_string(), &e).unwrap(), "${A");
    assert_eq!(substitute(&"end$".to_string(), &e).unwrap(), "end$");
    assert_eq!(substitute(&"$MISSING".to_string(), &e), Err("MISSING".to_string()));
    assert_eq!(substitute(&"".to_string(), &e).unwrap(), "");
}

#[test]
fn every_token_is_substituted() {
    let e = env();
    assert_eq!(substitute_all(&strings(&["ls", "$HOME", "${A}"]), &e).unwrap(), strings(&["ls", "/home/me", "x"]));
    assert_eq!(substitute_all(&strings(&["ls", "$NOPE", "$ALSO"]), &e), Err("NOPE".to_string()));
}

#[test]
fn gating_command_comes_first() {
    let t = shell_task(Some(&["test", "-d", "$HOME"]), &["echo", "$A"]);
    match t.try_run(&env()).unwrap() {
        Action::RunCommand { command_type, cmd } => {
            assert_eq!(command_type, CommandType::RunIf);
            assert_eq!(cmd, strings(&["test", "-d", "/home/me"]));
        }
        other => panic!("unexpected {other:?}"),
    }
}

#[test]
fn passing_gate_leads_to_main_command() {
    let t = shell_task(Some(&["check"]), &["echo", "$A"]);
    let gate = strings(&["check"]);
    match t.after_command(CommandType::RunIf, &gate, Some(0), &env()).unwrap() {
        Action::RunCommand { command_type, cmd } => {
            assert_eq!(command_type, CommandType::Run);
            assert_eq!(cmd, strings(&["echo", "x"]));
        }
        other => panic!("unexpected {other:?}"),
    }
    assert!(matches!(
        t.after_command(CommandType::RunIf, &gate, Some(204), &env()),
        Ok(Action::Finish(Ending::Skipped))
    ));
    match t.after_command(CommandType::RunIf, &gate, Some(3), &env()) {
        Err(TaskError::CmdNonZero { command_type, name, cmd, code }) => {
            assert_eq!(command_type, CommandType::RunIf);
            assert_eq!(name, "t");
            assert_eq!(cmd, gate);
            assert_eq!(code, 3);
        }
        other => panic!("unexpected {other:?}"),
    }
    assert!(matches!(
        t.after_command(CommandType::RunIf, &gate, None, &env()),
        Err(TaskError::CmdTerminated { .. })
    ));
}

#[test]
fn main_command_exit_ends_the_task() {
    let t = shell_task(None, &["run"]);
    let cmd = strings(&["run"]);
    assert!(matches!(t.after_command(CommandType::Run, &cmd, Some(0), &env()), Ok(Action::Finish(Ending::Passed))));
    assert!(matches!(t.after_command(CommandType::Run, &cmd, Some(204), &env()), Ok(Action::Finish(Ending::Skipped))));
    assert!(matches!(t.after_command(CommandType::Run, &cmd, Some(1), &env()), Err(TaskError::CmdNonZero { .. })));
    assert_eq!(t.run_command(CommandType::Run, &cmd, Some(0)).unwrap(), true);
    assert_eq!(t.run_command(CommandType::Run, &cmd, Some(204)).unwrap(), false);
}

#[test]
fn undefined_variable_fails_the_task() {
    let t = shell_task(None, &["echo", "$NOPE"]);
    match t.try_run(&env()) {
        Err(TaskError::ResolveEnv { var }) => assert_eq!(var, "NOPE"),
        other => panic!("unexpected {other:?}"),
    }
}

#[test]
fn libraries_are_resolved_by_name() {
    assert_eq!(library_of(&"link".to_string()), Some(Library::Link));
    assert_eq!(library_of(&"git".to_string()), Some(Library::Git));
    assert_eq!(library_of(&"generate_git".to_string()), Some(Library::GenerateGit));
    assert_eq!(library_of(&"defaults".to_string()), Some(Library::Defaults));
    assert_eq!(library_of(&"self".to_string()), Some(Library::UpdateSelf));
    assert_eq!(library_of(&"Link".to_string()), None);
}

#[test]
fn library_tasks_dispatch_or_fail() {
    assert!(matches!(lib_task("link", true).try_run(&env()), Ok(Action::CallLibrary { library: Library::Link })));
    assert!(matches!(lib_task("self", false).try_run(&env()), Ok(Action::CallLibrary { library: Library::UpdateSelf })));
    match lib_task("link", false).try_run(&env()) {
        Err(TaskError::TaskDataRequired { task }) => assert_eq!(task, "l"),
        other => panic!("unexpected {other:?}"),
    }
    match lib_task("teleport", true).try_run(&env()) {
        Err(TaskError::UnimplementedLibrary { name, lib }) => {
            assert_eq!(name, "l");
            assert_eq!(lib, "teleport");
        }
        other => panic!("unexpected {other:?}"),
    }
}

#[test]
fn library_results_end_the_task() {
    let t = lib_task("git", true);
    let lib = "git".to_string();
    assert!(matches!(t.library_finished(&lib, Ok(true)), Ok(Ending::Passed)));
    assert!(matches!(t.library_finished(&lib, Ok(false)), Ok(Ending::Skipped)));
    match t.library_finished(&lib, Err("no network".to_string())) {
        Err(TaskError::LibraryFailed { name, lib, message }) => {
            assert_eq!(name, "l");
            assert_eq!(lib, "git");
            assert_eq!(message, "no network");
        }
        other => panic!("unexpected {other:?}"),
    }
}

#[test]
fn status_is_set_once_and_maps_to_outcome() {
    let mut t = shell_task(None, &["x"]);
    t.run(Ok(Ending::Skipped));
    assert!(matches!(t.status, TaskStatus::Skipped));
    assert!(t.status.is_terminal());
    assert_eq!(t.outcome(), Outcome::Skipped);
    let mut f = shell_task(None, &["x"]);
    f.run(Err(TaskError::EmptyCmd));
    assert_eq!(f.outcome(), Outcome::Failed);
    let mut p = shell_task(None, &["x"]);
    p.run(Ok(Ending::Passed));
    assert_eq!(p.outcome(), Outcome::Passed);
}

#[test]
fn commands_split_into_program_and_arguments() {
    assert!(matches!(Task::get_command(&Vec::new()), Err(TaskError::EmptyCmd)));
    let (program, args) = Task::get_command(&strings(&["ls", "-l", "/"])).unwrap();
    assert_eq!(program, "ls");
    assert_eq!(args, strings(&["-l", "/"]));
}

#[test]
fn task_environment_puts_declared_values_first() {
    let config = ConfigYaml {
        tasks_path: None,
        env: Some(vec![("EDITOR".to_string(), "vi".to_string())]),
        inherit_env: Some(strings(&["EDITOR", "PATH", "UNSET"])),
        bootstrap_tasks: Some(strings(&["brew"])),
    };
    let shell = vec![("PATH".to_string(), "/bin".to_string()), ("EDITOR".to_string(), "nano".to_string())];
    let e = config.task_env(&shell);
    assert_eq!(
        e,
        vec![
            ("EDITOR".to_string(), "vi".to_string()),
            ("EDITOR".to_string(), "nano".to_string()),
            ("PATH".to_string(), "/bin".to_string()),
        ]
    );
    assert_eq!(substitute(&"$EDITOR".to_string(), &e).unwrap(), "vi");
    assert_eq!(config.bootstrap_list(), strings(&["brew"]));
    assert!(ConfigYaml::default().task_env(&shell).is_empty());
}

#[test]
fn test_module_name_from_path() {
    assert_eq!(test_path("tests/link.rs"), "link");
    assert_eq!(test_path("tests/run"), "run");
    assert_eq!(test_path("tests/"), "");
    assert_eq!(test_path("x"), "");
}

#[test]
fn fixtures_sit_beside_the_test_crate() {
    assert_eq!(fixtures_dir("/src/up/testutils").unwrap(), "/src/up/tests/fixtures");
    assert_eq!(fixtures_dir("/"), None);
}

#[test]
fn binary_path_from_test_executable() {
    assert_eq!(up_binary_path("/t/debug/deps/run-1234", false).unwrap(), "/t/debug/up");
    assert_eq!(up_binary_path("/t/debug/run-1234", true).unwrap(), "/t/debug/up");
    assert_eq!(up_binary_path("/", true), None);
}

#[test]
fn link_payload_directories_are_substituted() {
    let mut opts = LinkOptions { from_dir: "$HOME/dotfiles".to_string(), to_dir: "${HOME}".to_string() };
    opts.resolve_env(&env()).unwrap();
    assert_eq!(opts.from_dir, "/home/me/dotfiles");
    assert_eq!(opts.to_dir, "/home/me");
    let mut bad = LinkOptions { from_dir: "$NOPE".to_string(), to_dir: "$HOME".to_string() };
    match bad.resolve_env(&env()) {
        Err(TaskError::ResolveEnv { var }) => assert_eq!(var, "NOPE"),
        other => panic!("unexpected {other:?}"),
    }
    assert_eq!(bad.from_dir, "$NOPE");
    assert_eq!(bad.to_dir, "$HOME");
}

#[test]
fn branch_refs_lose_their_prefixes() {
    assert_eq!(shorten_branch_ref("refs/heads/master"), "master");
    assert_eq!(shorten_branch_ref("refs/remotes/origin/main"), "origin/main");
    assert_eq!(shorten_branch_ref("refs/heads/refs/heads/x"), "x");
    assert_eq!(shorten_branch_ref("main"), "main");
    assert_eq!(shorten_branch_ref(""), "");
}
