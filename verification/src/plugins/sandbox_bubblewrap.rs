//! A sandbox that runs programs under bubblewrap: everything is read-only but
//! the paths that may be written to, and the network is cut off by default.
use crate::environment;
use crate::model;
use crate::model::{CommandSpec, Error};
use crate::paths;
use crate::plugins::registration;
use crate::plugins::registration::{Registration, RegistrationKind, RegistrationView};
use crate::plugins::sandbox;
use crate::plugins::sandbox::{
    FileOperation, PathRule, Probe, ProcessRule, RunEvent, SandboxRun, Stage,
};
use crate::text;
use vstd::prelude::*;

verus! {

pub const PLUGIN_ID: &'static str = "builtin.sandbox-bubblewrap";

pub const LAYER_ID: &'static str = "builtin.sandbox-bubblewrap.workdir";

const NAME: &'static str = "bubblewrap sandbox";

pub type BubblewrapFileOperation = FileOperation;

pub type BubblewrapPathRule = PathRule;

pub type BubblewrapProcessRule = ProcessRule;

/// What the sandbox allows.
#[derive(Clone, Debug, Default, PartialEq, Eq)]
pub struct BubblewrapSandboxConfig {
    pub path_rules: Vec<BubblewrapPathRule>,
    pub process_rules: Vec<BubblewrapProcessRule>,
    pub writable_paths: Vec<String>,
    pub default_allow: bool,
    pub allow_network: bool,
}

/// A checked configuration.
pub struct BubblewrapPolicy {
    pub path_rules: Vec<BubblewrapPathRule>,
    pub process_rules: Vec<BubblewrapProcessRule>,
    pub writable_paths: Vec<String>,
    pub default_allow: bool,
    pub allow_network: bool,
}

/// Makes the sandbox, where its rules and writable paths are usable.
pub fn bubblewrap_sandbox_plugin(config: BubblewrapSandboxConfig) -> (r: model::Result<
    BubblewrapPolicy,
>)
    ensures
        match sandbox::plain_rules(sandbox::path_rule_views(config.path_rules@)) {
            Err(m) => r is Err && r->Err_0@ == model::ErrorView::Workdir(m),
            Ok(plain) => match sandbox::writable_verdict(
                "bubblewrap sandbox"@,
                plain,
                config.default_allow,
                text::texts(config.writable_paths@),
            ) {
                Err(m) => r is Err && r->Err_0@ == model::ErrorView::Workdir(m),
                Ok(writable) => {
                    &&& r is Ok
                    &&& sandbox::path_rule_views(r->Ok_0.path_rules@) == plain
                    &&& text::texts(r->Ok_0.writable_paths@) == writable
                    &&& r->Ok_0.process_rules == config.process_rules
                    &&& r->Ok_0.default_allow == config.default_allow
                    &&& r->Ok_0.allow_network == config.allow_network
                },
            },
        },
{
    let path_rules = match sandbox::normalize_rules(config.path_rules.as_slice()) {
        Ok(rules) => rules,
        Err(e) => return Err(e),
    };
    let writable_paths = match sandbox::require_writable(
        NAME,
        path_rules.as_slice(),
        config.default_allow,
        config.writable_paths.as_slice(),
    ) {
        Ok(list) => list,
        Err(e) => return Err(e),
    };
    Ok(
        BubblewrapPolicy {
            path_rules,
            process_rules: config.process_rules,
            writable_paths,
            default_allow: config.default_allow,
            allow_network: config.allow_network,
        },
    )
}

/// The arguments that shut a program in.
pub open spec fn confinement(allow_network: bool) -> Seq<Seq<char>> {
    let base = seq![
        "--die-with-parent"@,
        "--new-session"@,
        "--unshare-user"@,
        "--unshare-pid"@,
        "--unshare-uts"@,
        "--unshare-ipc"@,
        "--unshare-cgroup-try"@,
    ];
    if allow_network {
        base
    } else {
        base.push("--unshare-net"@)
    }
}

/// The arguments that make paths writable.
pub open spec fn binds(root: Seq<char>, list: Seq<Seq<char>>) -> Seq<Seq<char>>
    decreases list.len(),
{
    if list.len() == 0 {
        Seq::empty()
    } else {
        binds(root, list.drop_last()) + seq![
            "--bind"@,
            paths::joined(root, list.last()),
            paths::joined("/workspace"@, list.last()),
        ]
    }
}

/// The arguments that set variables.
pub open spec fn settings(env: Seq<(Seq<char>, Seq<char>)>) -> Seq<Seq<char>>
    decreases env.len(),
{
    if env.len() == 0 {
        Seq::empty()
    } else {
        settings(env.drop_last()) + seq!["--setenv"@, env.last().0, env.last().1]
    }
}

/// The arguments with which a program runs in the sandbox, from `cwd` in the project.
pub open spec fn sandboxed(
    root: Seq<char>,
    writable: Seq<Seq<char>>,
    allow_network: bool,
    cwd: Seq<char>,
    command: model::CommandView,
) -> Seq<Seq<char>> {
    confinement(allow_network) + seq![
        "--ro-bind"@,
        "/"@,
        "/"@,
        "--proc"@,
        "/proc"@,
        "--dev"@,
        "/dev"@,
        "--ro-bind"@,
        root,
        "/workspace"@,
    ] + binds(root, writable) + seq!["--chdir"@, paths::joined("/workspace"@, cwd)] + settings(
        environment::by_name(command.env),
    ) + seq!["--"@, command.program] + command.args
}

/// The command that runs a program in the sandbox of the project at `root`, or why
/// there is none.
pub open spec fn wrapped(
    policy: BubblewrapPolicy,
    root: Seq<char>,
    command: model::CommandView,
) -> Result<model::CommandView, Seq<char>> {
    let cwd = match command.cwd {
        Some(c) => c,
        None => Seq::empty(),
    };
    if !sandbox::process_allowed(
        sandbox::process_rule_views(policy.process_rules@),
        command.program,
        policy.default_allow,
    ) {
        Err(sandbox::process_denial("bubblewrap sandbox"@, command.program))
    } else {
        match sandbox::validated(cwd, true) {
            Err(m) => Err(m),
            Ok(plain) => Ok(
                model::CommandView {
                    program: "bwrap"@,
                    args: sandboxed(
                        root,
                        text::texts(policy.writable_paths@),
                        policy.allow_network,
                        plain,
                        command,
                    ),
                    cwd: None,
                    env: Seq::empty(),
                    max_output_bytes: command.max_output_bytes,
                },
            ),
        }
    }
}

/// The command that shows whether the sandbox can be used.
pub open spec fn probing(allow_network: bool) -> model::CommandView {
    model::CommandView {
        program: "bwrap"@,
        args: confinement(allow_network) + seq![
            "--ro-bind"@,
            "/"@,
            "/"@,
            "--proc"@,
            "/proc"@,
            "--dev"@,
            "/dev"@,
            "--"@,
            "true"@,
        ],
        cwd: None,
        env: Seq::empty(),
        max_output_bytes: None,
    }
}

/// Without leave for it, every command is cut off from the network.
pub proof fn law_network_is_cut_off(
    root: Seq<char>,
    writable: Seq<Seq<char>>,
    cwd: Seq<char>,
    command: model::CommandView,
)
    ensures
        sandboxed(root, writable, false, cwd, command)[7] == "--unshare-net"@,
        sandboxed(root, writable, false, cwd, command).take(8) == confinement(false),
{
    let all = sandboxed(root, writable, false, cwd, command);
    assert(all.take(8) =~= confinement(false));
    assert(all[7] == all.take(8)[7]);
}

impl BubblewrapPolicy {
    /// Asks the rules about a file.
    pub fn require_path(&self, operation: BubblewrapFileOperation, path: &str) -> (r: model::Result<
        String,
    >)
        ensures
            match sandbox::path_verdict(
                "bubblewrap sandbox"@,
                sandbox::path_rule_views(self.path_rules@),
                self.default_allow,
                operation,
                path@,
                false,
            ) {
                Ok(p) => r is Ok && r->Ok_0@ == p,
                Err(m) => r is Err && r->Err_0@ == model::ErrorView::Workdir(m),
            },
    {
        sandbox::require_path(
            NAME,
            self.path_rules.as_slice(),
            self.default_allow,
            operation,
            path,
            false,
        )
    }

    /// Asks the rules about a program.
    pub fn require_process(&self, program: &str) -> (r: model::Result<()>)
        ensures
            r is Ok == sandbox::process_allowed(
                sandbox::process_rule_views(self.process_rules@),
                program@,
                self.default_allow,
            ),
            r matches Err(e) ==> e@ == model::ErrorView::Workdir(
                sandbox::process_denial("bubblewrap sandbox"@, program@),
            ),
    {
        sandbox::require_process(NAME, self.process_rules.as_slice(), self.default_allow, program)
    }

    /// The arguments that shut a program in.
    pub fn confinement_args(&self) -> (r: Vec<String>)
        ensures
            text::texts(r@) == confinement(self.allow_network),
    {
        let mut args = text::no_texts();
        text::push_all(
            &mut args,
            &[
                "--die-with-parent",
                "--new-session",
                "--unshare-user",
                "--unshare-pid",
                "--unshare-uts",
                "--unshare-ipc",
                "--unshare-cgroup-try",
            ],
        );
        if !self.allow_network {
            text::push_text(&mut args, "--unshare-net");
        }
        proof {
            assert(text::texts(args@) =~= confinement(self.allow_network));
        }
        args
    }

    fn push_binds(&self, args: &mut Vec<String>, root: &str)
        ensures
            text::texts(final(args)@) == text::texts(old(args)@) + binds(
                root@,
                text::texts(self.writable_paths@),
            ),
    {
        let ghost start = text::texts(args@);
        let ghost all = text::texts(self.writable_paths@);
        let mut i: usize = 0;
        proof {
            assert(all.take(0) =~= Seq::empty());
            assert(start + binds(root@, all.take(0)) =~= start);
        }
        while i < self.writable_paths.len()
            invariant
                i <= self.writable_paths@.len(),
                all == text::texts(self.writable_paths@),
                text::texts(args@) == start + binds(root@, all.take(i as int)),
            decreases self.writable_paths@.len() - i,
        {
            let path = self.writable_paths[i].as_str();
            let host = paths::join(root, path);
            let guest = paths::join(sandbox::SANDBOX_ROOT, path);
            text::push_all(args, &["--bind", host.as_str(), guest.as_str()]);
            proof {
                assert(all.take(i + 1).drop_last() =~= all.take(i as int));
                assert(start + binds(root@, all.take(i + 1)) =~= start + binds(
                    root@,
                    all.take(i as int),
                ) + seq!["--bind"@, host@, guest@]);
                assert(text::texts(args@) =~= start + binds(root@, all.take(i + 1)));
            }
            i += 1;
        }
        proof {
            assert(all.take(i as int) =~= all);
        }
    }

    /// The command that runs a program in the sandbox of the project at `root`.
    pub fn build_command(&self, root: &str, command: &CommandSpec) -> (r: model::Result<CommandSpec>)
        ensures
            match wrapped(*self, root@, command@) {
                Ok(wanted) => r is Ok && r->Ok_0@ == wanted,
                Err(m) => r is Err && r->Err_0@ == model::ErrorView::Workdir(m),
            },
    {
        if let Err(e) = self.require_process(command.program.as_str()) {
            return Err(e);
        }
        let given = match &command.cwd {
            Some(c) => text::owned(c.as_str()),
            None => String::new(),
        };
        let cwd = match sandbox::validate_relative(given.as_str(), true) {
            Ok(c) => c,
            Err(e) => return Err(e),
        };
        let mut args = self.confinement_args();
        text::push_all(
            &mut args,
            &[
                "--ro-bind",
                "/",
                "/",
                "--proc",
                "/proc",
                "--dev",
                "/dev",
                "--ro-bind",
                root,
                sandbox::SANDBOX_ROOT,
            ],
        );
        let ghost fixed = seq![
            "--ro-bind"@,
            "/"@,
            "/"@,
            "--proc"@,
            "/proc"@,
            "--dev"@,
            "/dev"@,
            "--ro-bind"@,
            root@,
            "/workspace"@,
        ];
        proof {
            assert(text::texts(args@) =~= confinement(self.allow_network) + fixed);
        }
        self.push_binds(&mut args, root);
        let dir = paths::join(sandbox::SANDBOX_ROOT, cwd.as_str());
        text::push_all(&mut args, &["--chdir", dir.as_str()]);
        let ghost head = confinement(self.allow_network) + fixed + binds(
            root@,
            text::texts(self.writable_paths@),
        ) + seq!["--chdir"@, dir@];
        proof {
            assert(text::texts(args@) =~= head);
        }
        let env = environment::order_by_name(command.env.as_slice());
        push_settings(&mut args, env.as_slice());
        text::push_all(&mut args, &["--", command.program.as_str()]);
        text::push_texts(&mut args, command.args.as_slice());
        proof {
            assert(text::texts(args@) =~= sandboxed(
                root@,
                text::texts(self.writable_paths@),
                self.allow_network,
                cwd@,
                command@,
            ));
        }
        Ok(CommandSpec::plain("bwrap", args, command.max_output_bytes))
    }

    /// The command that shows whether the sandbox can be used.
    pub fn availability_probe(&self) -> (r: CommandSpec)
        ensures
            r@ == probing(self.allow_network),
    {
        let mut args = self.confinement_args();
        text::push_all(
            &mut args,
            &["--ro-bind", "/", "/", "--proc", "/proc", "--dev", "/dev", "--", "true"],
        );
        proof {
            assert(text::texts(args@) =~= confinement(self.allow_network) + seq![
                "--ro-bind"@,
                "/"@,
                "/"@,
                "--proc"@,
                "/proc"@,
                "--dev"@,
                "/dev"@,
                "--"@,
                "true"@,
            ]);
        }
        CommandSpec::plain("bwrap", args, None)
    }

    /// Whether the sandbox can be used, by how its probe ended.
    pub fn ensure_available(&self, probe: &Probe) -> (r: model::Result<()>)
        ensures
            match sandbox::probe_complaint("bubblewrap sandbox"@, *probe) {
                None => r is Ok,
                Some(m) => r is Err && r->Err_0@ == model::ErrorView::Workdir(m),
            },
    {
        sandbox::probe_verdict(NAME, probe)
    }
}

fn push_settings(args: &mut Vec<String>, env: &[(String, String)])
    ensures
        text::texts(final(args)@) == text::texts(old(args)@) + settings(model::pair_views(env@)),
{
    let ghost start = text::texts(args@);
    let ghost all = model::pair_views(env@);
    let mut i: usize = 0;
    proof {
        assert(all.take(0) =~= Seq::empty());
        assert(start + settings(all.take(0)) =~= start);
    }
    while i < env.len()
        invariant
            i <= env@.len(),
            all == model::pair_views(env@),
            text::texts(args@) == start + settings(all.take(i as int)),
        decreases env@.len() - i,
    {
        let key = env[i].0.as_str();
        let value = env[i].1.as_str();
        text::push_all(args, &["--setenv", key, value]);
        proof {
            assert(all.take(i + 1).drop_last() =~= all.take(i as int));
            assert(all.take(i + 1).last() == (key@, value@));
            assert(text::texts(args@) =~= start + settings(all.take(i + 1)));
        }
        i += 1;
    }
    proof {
        assert(all.take(i as int) =~= all);
    }
}

impl BubblewrapPolicy {
    /// Starts to run a program in the sandbox of the project at `root`. `cancelled` says
    /// whether it is given up already.
    pub fn begin(&self, root: &str, command: &CommandSpec, cancelled: bool) -> (r: model::Result<
        SandboxRun,
    >)
        ensures
            if cancelled {
                r is Err && r->Err_0@ == model::ErrorView::Cancelled
            } else {
                match wrapped(*self, root@, command@) {
                    Err(m) => r is Err && r->Err_0@ == model::ErrorView::Workdir(m),
                    Ok(confined) => {
                        &&& r is Ok
                        &&& r->Ok_0.sandbox@ == "bubblewrap sandbox"@
                        &&& r->Ok_0.stage@ == sandbox::StageView::Fresh(
                            probing(self.allow_network),
                            confined,
                        )
                    },
                }
            },
    {
        if cancelled {
            return Err(Error::Cancelled);
        }
        match self.build_command(root, command) {
            Err(e) => Err(e),
            Ok(confined) => Ok(
                SandboxRun {
                    sandbox: NAME,
                    stage: Stage::Fresh { probe: self.availability_probe(), confined },
                },
            ),
        }
    }
}

/// Whatever happens while a program is run, every command is one of bubblewrap, and is
/// cut off from the network unless that is allowed: the program never runs unconfined.
pub proof fn law_programs_run_confined(
    policy: BubblewrapPolicy,
    root: Seq<char>,
    command: model::CommandView,
    events: Seq<RunEvent>,
    i: int,
)
    requires
        wrapped(policy, root, command) is Ok,
        0 <= i < sandbox::commands_run(
            "bubblewrap sandbox"@,
            sandbox::StageView::Fresh(
                probing(policy.allow_network),
                wrapped(policy, root, command)->Ok_0,
            ),
            events,
        ).len(),
    ensures
        ({
            let run = sandbox::commands_run(
                "bubblewrap sandbox"@,
                sandbox::StageView::Fresh(
                    probing(policy.allow_network),
                    wrapped(policy, root, command)->Ok_0,
                ),
                events,
            );
            &&& run[i].program == "bwrap"@
            &&& !policy.allow_network ==> run[i].args.contains("--unshare-net"@)
        }),
{
    let probe = probing(policy.allow_network);
    let confined = wrapped(policy, root, command)->Ok_0;
    sandbox::law_the_probe_comes_first("bubblewrap sandbox"@, probe, confined, events);
    if !policy.allow_network {
        assert(probe.args[7] == "--unshare-net"@);
        assert(confined.args[7] == "--unshare-net"@);
    }
}

/// What the plugin registers, in this order.
pub open spec fn registered() -> Seq<RegistrationView> {
    seq![(RegistrationKind::WorkdirLayer, LAYER_ID@, 0int)]
}

impl BubblewrapPolicy {
    /// What the plugin registers, in this order.
    pub fn registrations(&self) -> (r: Vec<Registration>)
        ensures
            registration::registration_views(r@) == registered(),
    {
        let mut list: Vec<Registration> = Vec::new();
        proof {
            assert(registration::registration_views(list@) =~= Seq::empty());
        }
        registration::register(&mut list, RegistrationKind::WorkdirLayer, LAYER_ID, 0);
        proof {
            assert(registration::registration_views(list@) =~= registered());
        }
        list
    }
}

/// The command is what runs at the end, after the mark that ends the options of the
/// sandbox. Every writable path is bound at its place in the project, and every variable
/// is set to its value.
pub proof fn law_commands_run_as_they_are(
    root: Seq<char>,
    writable: Seq<Seq<char>>,
    allow_network: bool,
    cwd: Seq<char>,
    command: model::CommandView,
    a: Seq<Seq<char>>,
    b: Seq<Seq<char>>,
    path: Seq<char>,
    c: Seq<(Seq<char>, Seq<char>)>,
    d: Seq<(Seq<char>, Seq<char>)>,
    name: Seq<char>,
    value: Seq<char>,
)
    ensures
        ({
            let args = sandboxed(root, writable, allow_network, cwd, command);
            let n = args.len() - command.args.len();
            &&& n >= 2
            &&& args.skip(n) == command.args
            &&& args[n - 1] == command.program
            &&& args[n - 2] == "--"@
            &&& allow_network ==> !confinement(allow_network).contains("--unshare-net"@)
        }),
        binds(root, a + b) == binds(root, a) + binds(root, b),
        binds(root, seq![path]) == seq![
            "--bind"@,
            paths::joined(root, path),
            paths::joined("/workspace"@, path),
        ],
        settings(c + d) == settings(c) + settings(d),
        settings(seq![(name, value)]) == seq!["--setenv"@, name, value],
    decreases b.len() + d.len(),
{
    let args = sandboxed(root, writable, allow_network, cwd, command);
    let n = args.len() - command.args.len();
    assert(args.skip(n) =~= command.args);
    reveal_with_fuel(binds, 2);
    reveal_with_fuel(settings, 2);
    assert(seq![path].drop_last() =~= Seq::empty());
    assert(seq![(name, value)].drop_last() =~= Seq::empty());
    assert(binds(root, seq![path]) =~= seq![
        "--bind"@,
        paths::joined(root, path),
        paths::joined("/workspace"@, path),
    ]);
    assert(settings(seq![(name, value)]) =~= seq!["--setenv"@, name, value]);
    if b.len() == 0 {
        assert(a + b =~= a);
        assert(binds(root, a) + binds(root, b) =~= binds(root, a));
    } else {
        law_commands_run_as_they_are(
            root,
            writable,
            allow_network,
            cwd,
            command,
            a,
            b.drop_last(),
            path,
            c,
            d,
            name,
            value,
        );
        assert((a + b).drop_last() =~= a + b.drop_last());
        assert((a + b).last() == b.last());
        assert(binds(root, a + b) =~= binds(root, a) + binds(root, b));
    }
    if d.len() == 0 {
        assert(c + d =~= c);
        assert(settings(c) + settings(d) =~= settings(c));
    } else {
        law_commands_run_as_they_are(
            root,
            writable,
            allow_network,
            cwd,
            command,
            a,
            b,
            path,
            c,
            d.drop_last(),
            name,
            value,
        );
        assert((c + d).drop_last() =~= c + d.drop_last());
        assert((c + d).last() == d.last());
        assert(settings(c + d) =~= settings(c) + settings(d));
    }
    reveal_strlit("--unshare-net");
    reveal_strlit("--die-with-parent");
    reveal_strlit("--new-session");
    reveal_strlit("--unshare-user");
    reveal_strlit("--unshare-pid");
    reveal_strlit("--unshare-uts");
    reveal_strlit("--unshare-ipc");
    reveal_strlit("--unshare-cgroup-try");
    assert("--unshare-net"@.len() == 13 && "--unshare-net"@[10] == 'n');
    assert("--die-with-parent"@.len() == 17 && "--new-session"@[2] == 'n'
        && "--unshare-user"@.len() == 14);
    assert("--unshare-pid"@[10] == 'p' && "--unshare-uts"@[10] == 'u' && "--unshare-ipc"@[10] == 'i'
        && "--unshare-cgroup-try"@.len() == 20);
}

/// A program that the rules do not allow is not wrapped, and neither is one that would run
/// outside the project. What is wrapped is written out as much as was asked for.
pub proof fn law_only_allowed_programs_are_wrapped(
    policy: BubblewrapPolicy,
    root: Seq<char>,
    command: model::CommandView,
)
    ensures
        wrapped(policy, root, command) is Ok <==> sandbox::process_allowed(
            sandbox::process_rule_views(policy.process_rules@),
            command.program,
            policy.default_allow,
        ) && (command.cwd matches Some(c) ==> sandbox::validated(c, true) is Ok),
        wrapped(policy, root, command) matches Ok(w) ==> w.max_output_bytes
            == command.max_output_bytes && w.env.len() == 0 && w.cwd is None,
{
    sandbox::lemma_names_are_plain(Seq::empty());
    assert(text::joined(Seq::<Seq<char>>::empty(), "/"@) =~= Seq::empty());
}

} // verus!
