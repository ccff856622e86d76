use airicode::environment::{order_by_name, set_variable};
use airicode::model::{CommandSpec, Error};
use airicode::plugins::sandbox::{
    validate_relative, FileOperation, PathRule, Probe, ProcessRule, RunEvent, RunStep, SandboxRun,
};
use airicode::plugins::sandbox_bubblewrap::{
    bubblewrap_sandbox_plugin, BubblewrapFileOperation, BubblewrapPathRule, BubblewrapPolicy,
    BubblewrapProcessRule, BubblewrapSandboxConfig,
};
use airicode::plugins::sandbox_container::{
    container_sandbox_plugin, ContainerPolicy, ContainerProcessRule, ContainerSandboxConfig,
    ContainerSandboxRuntime,
};
use airicode::plugins::sandbox_policy::{policy_sandbox_plugin, PolicySandboxConfig};

fn bubblewrap_config() -> BubblewrapSandboxConfig {
    BubblewrapSandboxConfig {
        path_rules: vec![BubblewrapPathRule {
            operation: Some(BubblewrapFileOperation::Read),
            path: String::new(),
            allow: true,
        }],
        process_rules: vec![BubblewrapProcessRule {
            program: Some("sh".to_string()),
            allow: true,
        }],
        writable_paths: vec![],
        default_allow: false,
        allow_network: false,
    }
}

fn bubblewrap(config: BubblewrapSandboxConfig) -> BubblewrapPolicy {
    match bubblewrap_sandbox_plugin(config) {
        Ok(policy) => policy,
        Err(_) => panic!("the configuration is valid"),
    }
}

fn holds(args: &[String], part: &[&str]) -> bool {
    args.windows(part.len()).any(|window| window == part)
}

#[test]
fn constructs_readonly_networkless_command() {
    let policy = bubblewrap(bubblewrap_config());
    let built = policy
        .build_command(
            "/project",
            &CommandSpec {
                program: "sh".to_string(),
                args: vec!["-c".to_string(), "pwd".to_string()],
                cwd: Some("src".to_string()),
                env: vec![("A".to_string(), "B".to_string())],
                max_output_bytes: None,
            },
        )
        .unwrap();
    assert_eq!(built.program, "bwrap");
    assert!(built.args.iter().any(|arg| arg == "--unshare-net"));
    assert!(holds(&built.args, &["--ro-bind", "/", "/"]));
    assert!(holds(&built.args, &["--chdir", "/workspace/src"]));
    assert_eq!(&built.args[built.args.len() - 3..], ["sh", "-c", "pwd"]);
}

#[test]
fn other_programs_are_not_run() {
    let policy = bubblewrap(bubblewrap_config());
    assert!(policy.require_process("sh").is_ok());
    assert!(policy.require_process("cargo").is_err());
    assert!(policy.build_command("/project", &CommandSpec::plain("cargo", vec![], None)).is_err());
    assert!(matches!(
        policy.require_path(FileOperation::Read, "src/main.rs"),
        Ok(path) if path == "src/main.rs"
    ));
    assert!(policy.require_path(FileOperation::Write, "src/main.rs").is_err());
    assert!(policy.require_path(FileOperation::Read, "../x").is_err());
}

#[test]
fn writable_paths_must_be_allowed() {
    let mut config = bubblewrap_config();
    config.writable_paths = vec!["target".to_string()];
    assert!(bubblewrap_sandbox_plugin(config).is_err());
    let mut config = bubblewrap_config();
    config.writable_paths = vec!["target".to_string()];
    config.path_rules.push(PathRule {
        operation: Some(FileOperation::Write),
        path: "target".to_string(),
        allow: true,
    });
    let policy = bubblewrap(config);
    assert_eq!(policy.writable_paths, vec!["target"]);
}

#[test]
fn probes_that_fail_close_the_sandbox() {
    let policy = bubblewrap(bubblewrap_config());
    assert!(policy.ensure_available(&Probe::Ended(0, vec![])).is_ok());
    assert!(policy.ensure_available(&Probe::Ended(1, b"no userns".to_vec())).is_err());
    assert!(matches!(
        policy.ensure_available(&Probe::Failed("runtime unavailable".to_string())),
        Err(Error::Workdir(_))
    ));
}

fn container_config(runtime: ContainerSandboxRuntime) -> ContainerSandboxConfig {
    ContainerSandboxConfig {
        runtime,
        image: "rust:latest".to_string(),
        path_rules: vec![],
        process_rules: vec![ContainerProcessRule {
            program: Some("cargo".to_string()),
            allow: true,
        }],
        writable_paths: vec![],
        default_allow: false,
        allow_network: false,
    }
}

fn container(config: ContainerSandboxConfig) -> ContainerPolicy {
    match container_sandbox_plugin(config) {
        Ok(policy) => policy,
        Err(_) => panic!("the configuration is valid"),
    }
}

#[test]
fn constructs_locked_down_docker_command() {
    let policy = container(container_config(ContainerSandboxRuntime::Docker));
    let built = policy
        .build_command(
            "/project",
            &CommandSpec {
                program: "cargo".to_string(),
                args: vec!["test".to_string()],
                cwd: None,
                env: vec![],
                max_output_bytes: None,
            },
        )
        .unwrap();
    assert_eq!(built.program, "docker");
    assert!(holds(&built.args, &["--network", "none"]));
    assert!(built.args.iter().any(|arg| arg == "--read-only"));
    assert!(holds(&built.args, &["--cap-drop", "ALL"]));
    assert!(built
        .args
        .windows(2)
        .any(|part| part[0] == "--mount" && part[1].contains("target=/workspace,readonly")));
    assert_eq!(
        &built.args[built.args.len() - 3..],
        ["rust:latest", "cargo", "test"]
    );
}

#[test]
fn constructs_podman_probe_without_running_it() {
    let policy = container(container_config(ContainerSandboxRuntime::Podman));
    let probe = policy.availability_probe();
    assert_eq!(probe.program, "podman");
    assert_eq!(probe.args, vec!["version"]);
    assert_eq!(probe.cwd, None);
    assert!(probe.env.is_empty());
}

#[test]
fn containers_need_an_image() {
    let mut config = container_config(ContainerSandboxRuntime::Docker);
    config.image = " ".to_string();
    assert!(container_sandbox_plugin(config).is_err());
}

#[test]
fn the_first_fitting_rule_decides() {
    let policy = match policy_sandbox_plugin(PolicySandboxConfig {
        path_rules: vec![
            PathRule { operation: None, path: "secret".to_string(), allow: false },
            PathRule {
                operation: Some(FileOperation::Read),
                path: String::new(),
                allow: true,
            },
        ],
        process_rules: vec![
            ProcessRule { program: Some("rm".to_string()), allow: false },
            ProcessRule { program: None, allow: true },
        ],
        default_allow: false,
    }) {
        Ok(policy) => policy,
        Err(_) => panic!("the rules are valid"),
    };
    assert!(policy.check_path(FileOperation::Read, "secret/key").is_err());
    assert!(policy.check_path(FileOperation::Read, "secrets").is_ok());
    assert!(policy.check_path(FileOperation::Remove, "a").is_err());
    assert!(policy.check_process("rm").is_err());
    assert!(policy.check_process("ls").is_ok());
    assert!(matches!(policy.execute("ls"), Error::Workdir(_)));
}

#[test]
fn sandbox_paths_stay_inside() {
    assert_eq!(validate_relative("./a/b", false).unwrap(), "a/b");
    assert_eq!(validate_relative("", true).unwrap(), "");
    assert!(validate_relative("", false).is_err());
    assert!(validate_relative("/a", false).is_err());
    assert!(validate_relative("a/../b", false).is_err());
}

fn commands(mut run: SandboxRun, events: Vec<RunEvent>) -> (Vec<CommandSpec>, usize) {
    let mut given = Vec::new();
    let mut refused = 0;
    for event in events {
        let (next, step) = run.step(&event);
        run = next;
        match step {
            RunStep::Execute(command) => given.push(command),
            RunStep::Refuse(_) => refused += 1,
            RunStep::Nothing => {}
        }
    }
    (given, refused)
}

#[test]
fn sandbox_bubblewrap_unavailable_runtime_fails_closed_without_native_fallback() {
    let policy = bubblewrap(bubblewrap_config());
    let command = CommandSpec::plain("sh", vec![], None);
    let run = policy.begin("/project", &command, false).unwrap();
    let (given, refused) = commands(
        run,
        vec![
            RunEvent::Begin,
            RunEvent::Probed(Probe::Failed("runtime unavailable".to_string())),
            RunEvent::Begin,
            RunEvent::Probed(Probe::Ended(0, vec![])),
        ],
    );
    assert_eq!(refused, 1);
    assert_eq!(given.len(), 1);
    assert_eq!(given[0].program, "bwrap");
    assert!(matches!(policy.begin("/project", &command, true), Err(Error::Cancelled)));
    assert!(policy.begin("/project", &CommandSpec::plain("cargo", vec![], None), false).is_err());
}

#[test]
fn a_probe_that_passes_lets_the_program_run_confined() {
    let policy = bubblewrap(bubblewrap_config());
    let run = policy.begin("/project", &CommandSpec::plain("sh", vec![], None), false).unwrap();
    let (given, refused) = commands(
        run,
        vec![
            RunEvent::Probed(Probe::Ended(0, vec![])),
            RunEvent::Begin,
            RunEvent::Probed(Probe::Ended(0, vec![])),
        ],
    );
    assert_eq!(refused, 0);
    assert_eq!(given.len(), 2);
    assert_eq!(given[0].args.last().unwrap(), "true");
    assert_eq!(given[1].args.last().unwrap(), "sh");
    for command in &given {
        assert_eq!(command.program, "bwrap");
        assert!(command.args.iter().any(|arg| arg == "--unshare-net"));
    }
}

#[test]
fn sandbox_container_unavailable_runtime_fails_closed_without_native_fallback() {
    let policy = match container_sandbox_plugin(container_config(ContainerSandboxRuntime::Docker)) {
        Ok(policy) => policy,
        Err(_) => panic!("the configuration is valid"),
    };
    let run = policy.begin("/project", &CommandSpec::plain("cargo", vec![], None), false).unwrap();
    let (given, refused) = commands(
        run,
        vec![
            RunEvent::Begin,
            RunEvent::Probed(Probe::Failed("runtime unavailable".to_string())),
        ],
    );
    assert_eq!(refused, 1);
    assert_eq!(given.len(), 1);
    assert_eq!(given[0].program, "docker");
    assert_eq!(given[0].args, vec!["version"]);
}

fn named(pairs: &[(&str, &str)]) -> Vec<(String, String)> {
    pairs.iter().map(|(name, value)| (name.to_string(), value.to_string())).collect()
}

#[test]
fn variables_are_set_in_the_order_of_their_names() {
    let given = named(&[("B", "1"), ("AB", "2"), ("A", "3"), ("B", "4")]);
    let ordered = named(&[("A", "3"), ("AB", "2"), ("B", "4")]);
    assert_eq!(order_by_name(&given), ordered);
    assert_eq!(order_by_name(&ordered), ordered);
    let mut more = ordered.clone();
    set_variable(&mut more, "AC", "5");
    assert_eq!(more, named(&[("A", "3"), ("AB", "2"), ("AC", "5"), ("B", "4")]));

    let mut command = CommandSpec::plain("sh", vec![], None);
    command.env = given.clone();
    let built = bubblewrap(bubblewrap_config()).build_command("/project", &command).unwrap();
    let wanted =
        ["--setenv", "A", "3", "--setenv", "AB", "2", "--setenv", "B", "4", "--", "sh"];
    assert!(holds(&built.args, &wanted));

    let mut command = CommandSpec::plain("cargo", vec![], None);
    command.env = given;
    let policy = container(container_config(ContainerSandboxRuntime::Docker));
    let built = policy.build_command("/project", &command).unwrap();
    assert!(holds(&built.args, &["--env", "A=3", "--env", "AB=2", "--env", "B=4", "rust:latest"]));
}
