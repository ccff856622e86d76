//! A sandbox that runs programs in a container without privileges: the project is
//! mounted read-only but for the paths that may be written to, and the network is
//! cut off by default.
use crate::environment;
use crate::model;
use crate::model::{CommandSpec, Error};
use crate::paths;
use crate::plugins::registration;
use crate::plugins::registration::{Registration, RegistrationKind, RegistrationView};
use crate::plugins::sandbox;
use crate::plugins::sandbox::{FileOperation, PathRule, Probe, ProcessRule, SandboxRun, Stage};
use crate::text;
use vstd::prelude::*;

verus! {

pub const PLUGIN_ID: &'static str = "builtin.sandbox-container";

pub const LAYER_ID: &'static str = "builtin.sandbox-container.workdir";

const NAME: &'static str = "container sandbox";

/// What runs the container.
#[derive(Clone, Copy, Debug, PartialEq, Eq, Structural)]
pub enum ContainerSandboxRuntime {
    Docker,
    Podman,
}

/// The program of a runtime.
pub open spec fn runtime_program(runtime: ContainerSandboxRuntime) -> Seq<char> {
    match runtime {
        ContainerSandboxRuntime::Docker => "docker"@,
        ContainerSandboxRuntime::Podman => "podman"@,
    }
}

impl ContainerSandboxRuntime {
    /// The program of the runtime.
    pub fn executable(self) -> (r: &'static str)
        ensures
            r@ == runtime_program(self),
    {
        match self {
            ContainerSandboxRuntime::Docker => "docker",
            ContainerSandboxRuntime::Podman => "podman",
        }
    }
}

pub type ContainerFileOperation = FileOperation;

pub type ContainerPathRule = PathRule;

pub type ContainerProcessRule = ProcessRule;

/// What the sandbox allows.
#[derive(Clone, Debug, PartialEq, Eq)]
pub struct ContainerSandboxConfig {
    pub runtime: ContainerSandboxRuntime,
    pub image: String,
    pub path_rules: Vec<ContainerPathRule>,
    pub process_rules: Vec<ContainerProcessRule>,
    pub writable_paths: Vec<String>,
    pub default_allow: bool,
    pub allow_network: bool,
}

/// A checked configuration.
pub struct ContainerPolicy {
    pub runtime: ContainerSandboxRuntime,
    pub image: String,
    pub path_rules: Vec<ContainerPathRule>,
    pub process_rules: Vec<ContainerProcessRule>,
    pub writable_paths: Vec<String>,
    pub default_allow: bool,
    pub allow_network: bool,
}

/// Makes the sandbox, where its image, rules and writable paths are usable.
pub fn container_sandbox_plugin(config: ContainerSandboxConfig) -> (r: model::Result<
    ContainerPolicy,
>)
    ensures
        if text::is_blank(config.image@) {
            r is Err && r->Err_0@ == model::ErrorView::Workdir(
                "container sandbox image must not be empty"@,
            )
        } else {
            match sandbox::plain_rules(sandbox::path_rule_views(config.path_rules@)) {
                Err(m) => r is Err && r->Err_0@ == model::ErrorView::Workdir(m),
                Ok(plain) => match sandbox::writable_verdict(
                    "container sandbox"@,
                    plain,
                    config.default_allow,
                    text::texts(config.writable_paths@),
                ) {
                    Err(m) => r is Err && r->Err_0@ == model::ErrorView::Workdir(m),
                    Ok(writable) => {
                        &&& r is Ok
                        &&& r->Ok_0.runtime == config.runtime
                        &&& r->Ok_0.image == config.image
                        &&& sandbox::path_rule_views(r->Ok_0.path_rules@) == plain
                        &&& text::texts(r->Ok_0.writable_paths@) == writable
                        &&& r->Ok_0.process_rules == config.process_rules
                        &&& r->Ok_0.default_allow == config.default_allow
                        &&& r->Ok_0.allow_network == config.allow_network
                    },
                },
            }
        },
{
    if text::blank(config.image.as_str()) {
        return Err(Error::Workdir(text::owned("container sandbox image must not be empty")));
    }
    let path_rules = match sandbox::normalize_rules(config.path_rules.as_slice()) {
        Ok(rules) => rules,
        Err(e) => return Err(e),
    };
    let writable_paths = match sandbox::require_writable(
        NAME,
        path_rules.as_slice(),
        config.default_allow,
        config.writable_paths.as_slice(),
    ) {
        Ok(list) => list,
        Err(e) => return Err(e),
    };
    Ok(
        ContainerPolicy {
            runtime: config.runtime,
            image: config.image,
            path_rules,
            process_rules: config.process_rules,
            writable_paths,
            default_allow: config.default_allow,
            allow_network: config.allow_network,
        },
    )
}

/// The arguments that lock a container down.
pub open spec fn lockdown(allow_network: bool) -> Seq<Seq<char>> {
    let base = seq![
        "run"@,
        "--rm"@,
        "--pull"@,
        "never"@,
        "--read-only"@,
        "--cap-drop"@,
        "ALL"@,
        "--security-opt"@,
        "no-new-privileges"@,
        "--pids-limit"@,
        "256"@,
        "--user"@,
        "65534:65534"@,
    ];
    if allow_network {
        base
    } else {
        base + seq!["--network"@, "none"@]
    }
}

/// The arguments that mount paths for writing.
pub open spec fn mounts(root: Seq<char>, list: Seq<Seq<char>>) -> Seq<Seq<char>>
    decreases list.len(),
{
    if list.len() == 0 {
        Seq::empty()
    } else {
        mounts(root, list.drop_last()) + seq![
            "--mount"@,
            "type=bind,source="@ + paths::joined(root, list.last()) + ",target="@ + paths::joined(
                "/workspace"@,
                list.last(),
            ),
        ]
    }
}

/// Whether a path on the host cannot be named in a mount.
pub open spec fn has_comma(path: Seq<char>) -> bool {
    path.contains(',')
}

pub open spec fn any_comma(root: Seq<char>, list: Seq<Seq<char>>) -> bool {
    exists|i: int|
        0 <= i < list.len() && has_comma(paths::joined(root, #[trigger] list[i]))
}

/// The arguments that set variables.
pub open spec fn settings(env: Seq<(Seq<char>, Seq<char>)>) -> Seq<Seq<char>>
    decreases env.len(),
{
    if env.len() == 0 {
        Seq::empty()
    } else {
        settings(env.drop_last()) + seq!["--env"@, env.last().0 + "="@ + env.last().1]
    }
}

/// The arguments with which a program runs in the container, from `cwd` in the project.
pub open spec fn contained(
    root: Seq<char>,
    writable: Seq<Seq<char>>,
    allow_network: bool,
    image: Seq<char>,
    cwd: Seq<char>,
    command: model::CommandView,
) -> Seq<Seq<char>> {
    lockdown(allow_network) + seq![
        "--mount"@,
        "type=bind,source="@ + root + ",target="@ + "/workspace"@ + ",readonly"@,
    ] + mounts(root, writable) + seq!["--workdir"@, paths::joined("/workspace"@, cwd)] + settings(
        environment::by_name(command.env),
    ) + seq![image, command.program] + command.args
}

/// The command that runs a program in the sandbox of the project at `root`, or why
/// there is none.
pub open spec fn wrapped(
    policy: ContainerPolicy,
    root: Seq<char>,
    command: model::CommandView,
) -> Result<model::CommandView, Seq<char>> {
    let cwd = match command.cwd {
        Some(c) => c,
        None => Seq::empty(),
    };
    let writable = text::texts(policy.writable_paths@);
    if !sandbox::process_allowed(
        sandbox::process_rule_views(policy.process_rules@),
        command.program,
        policy.default_allow,
    ) {
        Err(sandbox::process_denial("container sandbox"@, command.program))
    } else {
        match sandbox::validated(cwd, true) {
            Err(m) => Err(m),
            Ok(plain) => if has_comma(root) {
                Err("container sandbox workdir path may not contain a comma"@)
            } else if any_comma(root, writable) {
                Err("container sandbox writable path may not contain a comma"@)
            } else {
                Ok(
                    model::CommandView {
                        program: runtime_program(policy.runtime),
                        args: contained(
                            root,
                            writable,
                            policy.allow_network,
                            policy.image@,
                            plain,
                            command,
                        ),
                        cwd: None,
                        env: Seq::empty(),
                        max_output_bytes: command.max_output_bytes,
                    },
                )
            },
        }
    }
}

/// The command that shows whether the sandbox can be used.
pub open spec fn probing(runtime: ContainerSandboxRuntime) -> model::CommandView {
    model::CommandView {
        program: runtime_program(runtime),
        args: seq!["version"@],
        cwd: None,
        env: Seq::empty(),
        max_output_bytes: None,
    }
}

/// Without leave for it, every container is cut off from the network, and the
/// project is mounted read-only in any case.
pub proof fn law_containers_are_locked_down(
    root: Seq<char>,
    writable: Seq<Seq<char>>,
    image: Seq<char>,
    cwd: Seq<char>,
    command: model::CommandView,
)
    ensures
        contained(root, writable, false, image, cwd, command).take(15) == lockdown(false),
        contained(root, writable, false, image, cwd, command)[13] == "--network"@,
        contained(root, writable, false, image, cwd, command)[14] == "none"@,
        contained(root, writable, true, image, cwd, command).take(13) == lockdown(true),
        contained(root, writable, false, image, cwd, command)[16] == "type=bind,source="@ + root
            + ",target="@ + "/workspace"@ + ",readonly"@,
        contained(root, writable, true, image, cwd, command)[14] == "type=bind,source="@ + root
            + ",target="@ + "/workspace"@ + ",readonly"@,
{
    let cut = contained(root, writable, false, image, cwd, command);
    let open = contained(root, writable, true, image, cwd, command);
    assert(cut.take(15) =~= lockdown(false));
    assert(open.take(13) =~= lockdown(true));
    assert(cut[13] == cut.take(15)[13]);
    assert(cut[14] == cut.take(15)[14]);
}

fn push_settings(args: &mut Vec<String>, env: &[(String, String)])
    ensures
        text::texts(final(args)@) == text::texts(old(args)@) + settings(model::pair_views(env@)),
{
    let ghost start = text::texts(args@);
    let ghost all = model::pair_views(env@);
    let mut i: usize = 0;
    proof {
        assert(all.take(0) =~= Seq::empty());
        assert(start + settings(all.take(0)) =~= start);
    }
    while i < env.len()
        invariant
            i <= env@.len(),
            all == model::pair_views(env@),
            text::texts(args@) == start + settings(all.take(i as int)),
        decreases env@.len() - i,
    {
        let setting = text::cat3(env[i].0.as_str(), "=", env[i].1.as_str());
        text::push_all(args, &["--env", setting.as_str()]);
        proof {
            assert(all.take(i + 1).drop_last() =~= all.take(i as int));
            assert(all.take(i + 1).last() == (env@[i as int].0@, env@[i as int].1@));
            assert(text::texts(args@) =~= start + settings(all.take(i + 1)));
        }
        i += 1;
    }
    proof {
        assert(all.take(i as int) =~= all);
    }
}

impl ContainerPolicy {
    /// Asks the rules about a file.
    pub fn require_path(&self, operation: ContainerFileOperation, path: &str) -> (r: model::Result<
        String,
    >)
        ensures
            match sandbox::path_verdict(
                "container sandbox"@,
                sandbox::path_rule_views(self.path_rules@),
                self.default_allow,
                operation,
                path@,
                false,
            ) {
                Ok(p) => r is Ok && r->Ok_0@ == p,
                Err(m) => r is Err && r->Err_0@ == model::ErrorView::Workdir(m),
            },
    {
        sandbox::require_path(
            NAME,
            self.path_rules.as_slice(),
            self.default_allow,
            operation,
            path,
            false,
        )
    }

    /// Asks the rules about a program.
    pub fn require_process(&self, program: &str) -> (r: model::Result<()>)
        ensures
            r is Ok == sandbox::process_allowed(
                sandbox::process_rule_views(self.process_rules@),
                program@,
                self.default_allow,
            ),
            r matches Err(e) ==> e@ == model::ErrorView::Workdir(
                sandbox::process_denial("container sandbox"@, program@),
            ),
    {
        sandbox::require_process(NAME, self.process_rules.as_slice(), self.default_allow, program)
    }

    fn push_mounts(&self, args: &mut Vec<String>, root: &str) -> (fits: bool)
        ensures
            fits == !any_comma(root@, text::texts(self.writable_paths@)),
            fits ==> text::texts(final(args)@) == text::texts(old(args)@) + mounts(
                root@,
                text::texts(self.writable_paths@),
            ),
    {
        let ghost start = text::texts(args@);
        let ghost all = text::texts(self.writable_paths@);
        let mut i: usize = 0;
        proof {
            assert(all.take(0) =~= Seq::empty());
            assert(start + mounts(root@, all.take(0)) =~= start);
        }
        while i < self.writable_paths.len()
            invariant
                i <= self.writable_paths@.len(),
                all == text::texts(self.writable_paths@),
                forall|k: int| 0 <= k < i ==> !has_comma(paths::joined(root@, #[trigger] all[k])),
                text::texts(args@) == start + mounts(root@, all.take(i as int)),
            decreases self.writable_paths@.len() - i,
        {
            let path = self.writable_paths[i].as_str();
            let host = paths::join(root, path);
            let guest = paths::join(sandbox::SANDBOX_ROOT, path);
            proof {
                assert(all[i as int] == path@);
            }
            if text::has_char(host.as_str(), ',') {
                return false;
            }
            let mount = text::cat4("type=bind,source=", host.as_str(), ",target=", guest.as_str());
            text::push_all(args, &["--mount", mount.as_str()]);
            proof {
                assert(all.take(i + 1).drop_last() =~= all.take(i as int));
                assert(text::texts(args@) =~= start + mounts(root@, all.take(i + 1)));
            }
            i += 1;
        }
        proof {
            assert(all.take(i as int) =~= all);
        }
        true
    }

    /// The command that runs a program in a container for the project at `root`.
    pub fn build_command(&self, root: &str, command: &CommandSpec) -> (r: model::Result<CommandSpec>)
        ensures
            match wrapped(*self, root@, command@) {
                Ok(wanted) => r is Ok && r->Ok_0@ == wanted,
                Err(m) => r is Err && r->Err_0@ == model::ErrorView::Workdir(m),
            },
    {
        if let Err(e) = self.require_process(command.program.as_str()) {
            return Err(e);
        }
        let given = match &command.cwd {
            Some(c) => text::owned(c.as_str()),
            None => String::new(),
        };
        let cwd = match sandbox::validate_relative(given.as_str(), true) {
            Ok(c) => c,
            Err(e) => return Err(e),
        };
        if text::has_char(root, ',') {
            return Err(
                Error::Workdir(
                    text::owned("container sandbox workdir path may not contain a comma"),
                ),
            );
        }
        let mut args = text::no_texts();
        text::push_all(
            &mut args,
            &[
                "run",
                "--rm",
                "--pull",
                "never",
                "--read-only",
                "--cap-drop",
                "ALL",
                "--security-opt",
                "no-new-privileges",
                "--pids-limit",
                "256",
                "--user",
                "65534:65534",
            ],
        );
        if !self.allow_network {
            text::push_all(&mut args, &["--network", "none"]);
        }
        proof {
            assert(text::texts(args@) =~= lockdown(self.allow_network));
        }
        let project = text::cat5(
            "type=bind,source=",
            root,
            ",target=",
            sandbox::SANDBOX_ROOT,
            ",readonly",
        );
        text::push_all(&mut args, &["--mount", project.as_str()]);
        proof {
            assert(text::texts(args@) =~= lockdown(self.allow_network) + seq![
                "--mount"@,
                project@,
            ]);
        }
        if !self.push_mounts(&mut args, root) {
            return Err(
                Error::Workdir(
                    text::owned("container sandbox writable path may not contain a comma"),
                ),
            );
        }
        let dir = paths::join(sandbox::SANDBOX_ROOT, cwd.as_str());
        text::push_all(&mut args, &["--workdir", dir.as_str()]);
        let ghost head = lockdown(self.allow_network) + seq!["--mount"@, project@] + mounts(
            root@,
            text::texts(self.writable_paths@),
        ) + seq!["--workdir"@, dir@];
        proof {
            assert(text::texts(args@) =~= head);
        }
        let env = environment::order_by_name(command.env.as_slice());
        push_settings(&mut args, env.as_slice());
        text::push_all(&mut args, &[self.image.as_str(), command.program.as_str()]);
        text::push_texts(&mut args, command.args.as_slice());
        proof {
            assert(text::texts(args@) =~= contained(
                root@,
                text::texts(self.writable_paths@),
                self.allow_network,
                self.image@,
                cwd@,
                command@,
            ));
        }
        Ok(CommandSpec::plain(self.runtime.executable(), args, command.max_output_bytes))
    }

    /// The command that shows whether the sandbox can be used.
    pub fn availability_probe(&self) -> (r: CommandSpec)
        ensures
            r@ == probing(self.runtime),
    {
        let mut args = text::no_texts();
        text::push_text(&mut args, "version");
        proof {
            assert(text::texts(args@) =~= seq!["version"@]);
        }
        CommandSpec::plain(self.runtime.executable(), args, None)
    }

    /// Whether the sandbox can be used, by how its probe ended.
    pub fn ensure_available(&self, probe: &Probe) -> (r: model::Result<()>)
        ensures
            match sandbox::probe_complaint("container sandbox"@, *probe) {
                None => r is Ok,
                Some(m) => r is Err && r->Err_0@ == model::ErrorView::Workdir(m),
            },
    {
        sandbox::probe_verdict(NAME, probe)
    }
}

impl ContainerPolicy {
    /// Starts to run a program in the sandbox of the project at `root`. `cancelled` says
    /// whether it is given up already.
    pub fn begin(&self, root: &str, command: &CommandSpec, cancelled: bool) -> (r: model::Result<
        SandboxRun,
    >)
        ensures
            if cancelled {
                r is Err && r->Err_0@ == model::ErrorView::Cancelled
            } else {
                match wrapped(*self, root@, command@) {
                    Err(m) => r is Err && r->Err_0@ == model::ErrorView::Workdir(m),
                    Ok(confined) => {
                        &&& r is Ok
                        &&& r->Ok_0.sandbox@ == "container sandbox"@
                        &&& r->Ok_0.stage@ == sandbox::StageView::Fresh(
                            probing(self.runtime),
                            confined,
                        )
                    },
                }
            },
    {
        if cancelled {
            return Err(Error::Cancelled);
        }
        match self.build_command(root, command) {
            Err(e) => Err(e),
            Ok(confined) => Ok(
                SandboxRun {
                    sandbox: NAME,
                    stage: Stage::Fresh { probe: self.availability_probe(), confined },
                },
            ),
        }
    }
}

/// What the plugin registers, in this order.
pub open spec fn registered() -> Seq<RegistrationView> {
    seq![(RegistrationKind::WorkdirLayer, LAYER_ID@, 0int)]
}

impl ContainerPolicy {
    /// What the plugin registers, in this order.
    pub fn registrations(&self) -> (r: Vec<Registration>)
        ensures
            registration::registration_views(r@) == registered(),
    {
        let mut list: Vec<Registration> = Vec::new();
        proof {
            assert(registration::registration_views(list@) =~= Seq::empty());
        }
        registration::register(&mut list, RegistrationKind::WorkdirLayer, LAYER_ID, 0);
        proof {
            assert(registration::registration_views(list@) =~= registered());
        }
        list
    }
}

/// The command is what runs at the end, in the image that was chosen. Every writable path
/// is mounted at its place in the project, and every variable is set to its value.
pub proof fn law_commands_run_as_they_are(
    root: Seq<char>,
    writable: Seq<Seq<char>>,
    allow_network: bool,
    image: Seq<char>,
    cwd: Seq<char>,
    command: model::CommandView,
    a: Seq<Seq<char>>,
    b: Seq<Seq<char>>,
    path: Seq<char>,
    c: Seq<(Seq<char>, Seq<char>)>,
    d: Seq<(Seq<char>, Seq<char>)>,
    name: Seq<char>,
    value: Seq<char>,
)
    ensures
        ({
            let args = contained(root, writable, allow_network, image, cwd, command);
            let n = args.len() - command.args.len();
            &&& n >= 2
            &&& args.skip(n) == command.args
            &&& args[n - 1] == command.program
            &&& args[n - 2] == image
        }),
        mounts(root, a + b) == mounts(root, a) + mounts(root, b),
        mounts(root, seq![path]) == seq![
            "--mount"@,
            "type=bind,source="@ + paths::joined(root, path) + ",target="@ + paths::joined(
                "/workspace"@,
                path,
            ),
        ],
        settings(c + d) == settings(c) + settings(d),
        settings(seq![(name, value)]) == seq!["--env"@, name + seq!['='] + value],
        runtime_program(ContainerSandboxRuntime::Docker) == "docker"@,
        runtime_program(ContainerSandboxRuntime::Podman) == "podman"@,
    decreases b.len() + d.len(),
{
    reveal_strlit("=");
    assert("="@ =~= seq!['=']);
    let args = contained(root, writable, allow_network, image, cwd, command);
    let n = args.len() - command.args.len();
    assert(args.skip(n) =~= command.args);
    reveal_with_fuel(mounts, 2);
    reveal_with_fuel(settings, 2);
    assert(seq![path].drop_last() =~= Seq::empty());
    assert(seq![(name, value)].drop_last() =~= Seq::empty());
    assert(mounts(root, seq![path]) =~= seq![
        "--mount"@,
        "type=bind,source="@ + paths::joined(root, path) + ",target="@ + paths::joined(
            "/workspace"@,
            path,
        ),
    ]);
    assert(settings(seq![(name, value)]) =~= seq!["--env"@, name + seq!['='] + value]);
    if b.len() == 0 {
        assert(a + b =~= a);
        assert(mounts(root, a) + mounts(root, b) =~= mounts(root, a));
    } else {
        law_commands_run_as_they_are(
            root,
            writable,
            allow_network,
            image,
            cwd,
            command,
            a,
            b.drop_last(),
            path,
            c,
            d,
            name,
            value,
        );
        assert((a + b).drop_last() =~= a + b.drop_last());
        assert((a + b).last() == b.last());
        assert(mounts(root, a + b) =~= mounts(root, a) + mounts(root, b));
    }
    if d.len() == 0 {
        assert(c + d =~= c);
        assert(settings(c) + settings(d) =~= settings(c));
    } else {
        law_commands_run_as_they_are(
            root,
            writable,
            allow_network,
            image,
            cwd,
            command,
            a,
            b,
            path,
            c,
            d.drop_last(),
            name,
            value,
        );
        assert((c + d).drop_last() =~= c + d.drop_last());
        assert((c + d).last() == d.last());
        assert(settings(c + d) =~= settings(c) + settings(d));
    }
}

/// A program that the rules do not allow is not wrapped, and neither is one that would run
/// outside the project or with a path that a mount cannot name. What is wrapped is written
/// out as much as was asked for.
pub proof fn law_only_allowed_programs_are_wrapped(
    policy: ContainerPolicy,
    root: Seq<char>,
    command: model::CommandView,
)
    ensures
        wrapped(policy, root, command) is Ok <==> sandbox::process_allowed(
            sandbox::process_rule_views(policy.process_rules@),
            command.program,
            policy.default_allow,
        ) && (command.cwd matches Some(c) ==> sandbox::validated(c, true) is Ok) && !root.contains(
            ',',
        ) && forall|i: int|
            0 <= i < policy.writable_paths@.len() ==> !paths::joined(
                root,
                (#[trigger] policy.writable_paths@[i])@,
            ).contains(','),
        wrapped(policy, root, command) matches Ok(w) ==> w.max_output_bytes
            == command.max_output_bytes && w.env.len() == 0 && w.cwd is None,
{
    sandbox::lemma_names_are_plain(Seq::empty());
    assert(text::joined(Seq::<Seq<char>>::empty(), "/"@) =~= Seq::empty());
    let writable = text::texts(policy.writable_paths@);
    if any_comma(root, writable) {
        let i = choose|i: int|
            0 <= i < writable.len() && has_comma(paths::joined(root, #[trigger] writable[i]));
        assert(writable[i] == policy.writable_paths@[i]@);
    }
    if exists|i: int|
        0 <= i < policy.writable_paths@.len() && paths::joined(
            root,
            (#[trigger] policy.writable_paths@[i])@,
        ).contains(',') {
        let i = choose|i: int|
            0 <= i < policy.writable_paths@.len() && paths::joined(
                root,
                (#[trigger] policy.writable_paths@[i])@,
            ).contains(',');
        assert(has_comma(paths::joined(root, writable[i])));
    }
}

} // verus!
