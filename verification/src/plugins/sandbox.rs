//! What the sandboxes have in common: rules on files and programs, of which the
//! first that fits decides, and paths that cannot leave the project.
use crate::bytes;
use crate::model;
use crate::model::{CommandSpec, Error};
use crate::paths;
use crate::text;
use vstd::prelude::*;

verus! {

/// Where a sandbox shows the project to a program.
pub const SANDBOX_ROOT: &'static str = "/workspace";

/// What is done with a file.
#[derive(Clone, Copy, Debug, PartialEq, Eq, Structural)]
pub enum FileOperation {
    Read,
    Write,
    Remove,
}

/// A rule on the files under a path.
#[derive(Clone, Debug, PartialEq, Eq)]
pub struct PathRule {
    /// The operation the rule is about, or all of them.
    pub operation: Option<FileOperation>,
    pub path: String,
    pub allow: bool,
}

/// A rule on programs.
#[derive(Clone, Debug, PartialEq, Eq)]
pub struct ProcessRule {
    /// The program the rule is about, or all of them.
    pub program: Option<String>,
    pub allow: bool,
}

/// A rule on files in mathematical terms.
pub ghost struct PathRuleView {
    pub operation: Option<FileOperation>,
    pub path: Seq<char>,
    pub allow: bool,
}

/// A rule on programs in mathematical terms.
pub ghost struct ProcessRuleView {
    pub program: Option<Seq<char>>,
    pub allow: bool,
}

impl View for PathRule {
    type V = PathRuleView;

    open spec fn view(&self) -> PathRuleView {
        PathRuleView { operation: self.operation, path: self.path@, allow: self.allow }
    }
}

impl View for ProcessRule {
    type V = ProcessRuleView;

    open spec fn view(&self) -> ProcessRuleView {
        ProcessRuleView { program: text::opt_text(self.program), allow: self.allow }
    }
}

pub open spec fn path_rule_views(rules: Seq<PathRule>) -> Seq<PathRuleView> {
    rules.map_values(|r: PathRule| r@)
}

pub open spec fn process_rule_views(rules: Seq<ProcessRule>) -> Seq<ProcessRuleView> {
    rules.map_values(|r: ProcessRule| r@)
}

// ---------------------------------------------------------------------------
// Paths
// ---------------------------------------------------------------------------

/// A path within the project in its plain form, or what is wrong with it.
pub open spec fn validated(path: Seq<char>, allow_root: bool) -> Result<Seq<char>, Seq<char>> {
    if paths::is_absolute(path) {
        Err("sandbox path must be project-relative: "@ + path)
    } else if !paths::stays_inside(path) {
        Err("sandbox path may not escape the project: "@ + path)
    } else if !allow_root && paths::plain(path).len() == 0 {
        Err("sandbox path must be non-empty"@)
    } else {
        Ok(paths::plain(path))
    }
}

/// Checks that a path lies in the project, and puts it in its plain form.
pub fn validate_relative(path: &str, allow_root: bool) -> (r: model::Result<String>)
    ensures
        match validated(path@, allow_root) {
            Ok(p) => r is Ok && r->Ok_0@ == p,
            Err(m) => r is Err && r->Err_0@ == model::ErrorView::Workdir(m),
        },
{
    if paths::absolute(path) {
        return Err(
            Error::Workdir(text::cat2("sandbox path must be project-relative: ", path)),
        );
    }
    if !paths::inside(path) {
        return Err(
            Error::Workdir(text::cat2("sandbox path may not escape the project: ", path)),
        );
    }
    let plain = paths::normalize(path);
    if !allow_root && plain.as_str().is_empty() {
        return Err(Error::Workdir(text::owned("sandbox path must be non-empty")));
    }
    Ok(plain)
}

/// A path that passed never leads out of the project, wherever the project is.
pub proof fn law_validated_paths_stay_inside(path: Seq<char>, allow_root: bool, root: Seq<char>)
    requires
        root.len() > 0,
    ensures
        validated(path, allow_root) matches Ok(p) ==> {
            &&& paths::stays_inside(p)
            &&& !paths::is_absolute(p)
            &&& paths::is_under(paths::joined(root, p), root)
            &&& !allow_root ==> p.len() > 0
        },
{
    if let Ok(p) = validated(path, allow_root) {
        paths::law_plain_paths_hold_names(path);
        paths::law_names_stay_under_their_base(root, paths::names_of(paths::parts(path)));
    }
}

// ---------------------------------------------------------------------------
// Rules
// ---------------------------------------------------------------------------

pub open spec fn path_rule_fits(rule: PathRuleView, operation: FileOperation, path: Seq<char>) -> bool {
    (rule.operation is None || rule.operation == Some(operation)) && paths::is_under(
        path,
        rule.path,
    )
}

/// What the first rule that fits says, or `otherwise` without one.
pub open spec fn path_allowed(
    rules: Seq<PathRuleView>,
    operation: FileOperation,
    path: Seq<char>,
    otherwise: bool,
) -> bool
    decreases rules.len(),
{
    if rules.len() == 0 {
        otherwise
    } else if path_rule_fits(rules[0], operation, path) {
        rules[0].allow
    } else {
        path_allowed(rules.drop_first(), operation, path, otherwise)
    }
}

pub open spec fn process_rule_fits(rule: ProcessRuleView, program: Seq<char>) -> bool {
    rule.program is None || rule.program == Some(program)
}

/// What the first rule that fits says, or `otherwise` without one.
pub open spec fn process_allowed(
    rules: Seq<ProcessRuleView>,
    program: Seq<char>,
    otherwise: bool,
) -> bool
    decreases rules.len(),
{
    if rules.len() == 0 {
        otherwise
    } else if process_rule_fits(rules[0], program) {
        rules[0].allow
    } else {
        process_allowed(rules.drop_first(), program, otherwise)
    }
}

/// The first rule that fits decides, whatever follows it.
pub proof fn law_first_path_rule_decides(
    rules: Seq<PathRuleView>,
    operation: FileOperation,
    path: Seq<char>,
    otherwise: bool,
    i: int,
)
    requires
        0 <= i < rules.len(),
        path_rule_fits(rules[i], operation, path),
        forall|j: int| 0 <= j < i ==> !path_rule_fits(#[trigger] rules[j], operation, path),
    ensures
        path_allowed(rules, operation, path, otherwise) == rules[i].allow,
    decreases rules.len(),
{
    if i > 0 {
        assert(!path_rule_fits(rules[0], operation, path));
        let rest = rules.drop_first();
        assert forall|j: int| 0 <= j < i - 1 implies !path_rule_fits(
            #[trigger] rest[j],
            operation,
            path,
        ) by {
            assert(rest[j] == rules[j + 1]);
        }
        law_first_path_rule_decides(rest, operation, path, otherwise, i - 1);
    }
}

/// Without a rule that fits, the default decides.
pub proof fn law_default_decides_without_a_rule(
    rules: Seq<PathRuleView>,
    operation: FileOperation,
    path: Seq<char>,
    otherwise: bool,
)
    requires
        forall|j: int| 0 <= j < rules.len() ==> !path_rule_fits(#[trigger] rules[j], operation, path),
    ensures
        path_allowed(rules, operation, path, otherwise) == otherwise,
    decreases rules.len(),
{
    if rules.len() > 0 {
        assert(!path_rule_fits(rules[0], operation, path));
        let rest = rules.drop_first();
        assert forall|j: int| 0 <= j < rest.len() implies !path_rule_fits(
            #[trigger] rest[j],
            operation,
            path,
        ) by {
            assert(rest[j] == rules[j + 1]);
        }
        law_default_decides_without_a_rule(rest, operation, path, otherwise);
    }
}

/// The first rule that fits a program decides, and without one the default does.
pub proof fn law_first_process_rule_decides(
    rules: Seq<ProcessRuleView>,
    program: Seq<char>,
    otherwise: bool,
    i: int,
)
    requires
        0 <= i <= rules.len(),
        i < rules.len() ==> process_rule_fits(rules[i], program),
        forall|j: int| 0 <= j < i ==> !process_rule_fits(#[trigger] rules[j], program),
    ensures
        process_allowed(rules, program, otherwise) == (if i < rules.len() {
            rules[i].allow
        } else {
            otherwise
        }),
    decreases rules.len(),
{
    if i > 0 {
        assert(!process_rule_fits(rules[0], program));
        let rest = rules.drop_first();
        assert forall|j: int| 0 <= j < i - 1 implies !process_rule_fits(
            #[trigger] rest[j],
            program,
        ) by {
            assert(rest[j] == rules[j + 1]);
        }
        law_first_process_rule_decides(rest, program, otherwise, i - 1);
    }
}

/// Rules with their paths in plain form, or what is wrong with the first bad one.
pub open spec fn plain_rules(rules: Seq<PathRuleView>) -> Result<Seq<PathRuleView>, Seq<char>>
    decreases rules.len(),
{
    if rules.len() == 0 {
        Ok(Seq::empty())
    } else {
        match plain_rules(rules.drop_last()) {
            Err(m) => Err(m),
            Ok(earlier) => match validated(rules.last().path, true) {
                Err(m) => Err(m),
                Ok(p) => Ok(earlier.push(PathRuleView { path: p, ..rules.last() })),
            },
        }
    }
}

proof fn lemma_plain_rules_err(rules: Seq<PathRuleView>, n: int)
    requires
        0 <= n <= rules.len(),
        plain_rules(rules.take(n)) is Err,
    ensures
        plain_rules(rules) == plain_rules(rules.take(n)),
    decreases rules.len() - n,
{
    if n < rules.len() {
        assert(rules.take(n + 1).drop_last() =~= rules.take(n));
        lemma_plain_rules_err(rules, n + 1);
    } else {
        assert(rules.take(n) =~= rules);
    }
}

/// Puts the paths of rules in their plain form.
pub fn normalize_rules(rules: &[PathRule]) -> (r: model::Result<Vec<PathRule>>)
    ensures
        match plain_rules(path_rule_views(rules@)) {
            Ok(plain) => r is Ok && path_rule_views(r->Ok_0@) == plain,
            Err(m) => r is Err && r->Err_0@ == model::ErrorView::Workdir(m),
        },
{
    let ghost all = path_rule_views(rules@);
    let mut out: Vec<PathRule> = Vec::new();
    let mut i: usize = 0;
    proof {
        assert(all.take(0) =~= Seq::empty());
        assert(path_rule_views(out@) =~= Seq::empty());
    }
    while i < rules.len()
        invariant
            i <= rules@.len(),
            all == path_rule_views(rules@),
            plain_rules(all.take(i as int)) is Ok,
            path_rule_views(out@) == plain_rules(all.take(i as int))->Ok_0,
        decreases rules@.len() - i,
    {
        let ghost before = path_rule_views(out@);
        proof {
            assert(all.take(i + 1).drop_last() =~= all.take(i as int));
            assert(all.take(i + 1).last() == rules@[i as int]@);
            if plain_rules(all.take(i + 1)) is Err {
                lemma_plain_rules_err(all, i + 1);
            }
        }
        match validate_relative(rules[i].path.as_str(), true) {
            Ok(path) => {
                let rule = PathRule { operation: rules[i].operation, path, allow: rules[i].allow };
                let ghost shown = rule@;
                out.push(rule);
                proof {
                    assert(path_rule_views(out@) =~= before.push(shown));
                }
            },
            Err(e) => return Err(e),
        }
        i += 1;
    }
    proof {
        assert(all.take(i as int) =~= all);
    }
    Ok(out)
}

/// How an operation is called in messages.
pub open spec fn operation_text(operation: FileOperation) -> Seq<char> {
    match operation {
        FileOperation::Read => "Read"@,
        FileOperation::Write => "Write"@,
        FileOperation::Remove => "Remove"@,
    }
}

fn operation_name(operation: FileOperation) -> (r: &'static str)
    ensures
        r@ == operation_text(operation),
{
    match operation {
        FileOperation::Read => "Read",
        FileOperation::Write => "Write",
        FileOperation::Remove => "Remove",
    }
}

fn allows_path(rules: &[PathRule], operation: FileOperation, path: &str, otherwise: bool) -> (r: bool)
    ensures
        r == path_allowed(path_rule_views(rules@), operation, path@, otherwise),
{
    let ghost all = path_rule_views(rules@);
    let mut i: usize = 0;
    proof {
        assert(all.skip(0) =~= all);
    }
    while i < rules.len()
        invariant
            i <= rules@.len(),
            all == path_rule_views(rules@),
            path_allowed(all, operation, path@, otherwise) == path_allowed(
                all.skip(i as int),
                operation,
                path@,
                otherwise,
            ),
        decreases rules@.len() - i,
    {
        let rule = &rules[i];
        proof {
            assert(all.skip(i as int)[0] == rule@);
            assert(all.skip(i as int).drop_first() =~= all.skip(i + 1));
        }
        let named = match rule.operation {
            Some(o) => o == operation,
            None => true,
        };
        if named && paths::under(path, rule.path.as_str()) {
            return rule.allow;
        }
        i += 1;
    }
    otherwise
}

fn allows_process(rules: &[ProcessRule], program: &str, otherwise: bool) -> (r: bool)
    ensures
        r == process_allowed(process_rule_views(rules@), program@, otherwise),
{
    let ghost all = process_rule_views(rules@);
    let mut i: usize = 0;
    proof {
        assert(all.skip(0) =~= all);
    }
    while i < rules.len()
        invariant
            i <= rules@.len(),
            all == process_rule_views(rules@),
            process_allowed(all, program@, otherwise) == process_allowed(
                all.skip(i as int),
                program@,
                otherwise,
            ),
        decreases rules@.len() - i,
    {
        let rule = &rules[i];
        proof {
            assert(all.skip(i as int)[0] == rule@);
            assert(all.skip(i as int).drop_first() =~= all.skip(i + 1));
        }
        let fits = match &rule.program {
            Some(p) => text::same_text(p.as_str(), program),
            None => true,
        };
        if fits {
            return rule.allow;
        }
        i += 1;
    }
    otherwise
}

/// What becomes of a request for a path: the path in its plain form, or why not.
pub open spec fn path_verdict(
    sandbox: Seq<char>,
    rules: Seq<PathRuleView>,
    otherwise: bool,
    operation: FileOperation,
    path: Seq<char>,
    allow_root: bool,
) -> Result<Seq<char>, Seq<char>> {
    match validated(path, allow_root) {
        Err(m) => Err(m),
        Ok(p) => if path_allowed(rules, operation, p, otherwise) {
            Ok(p)
        } else {
            Err(sandbox + " denied "@ + operation_text(operation) + " for "@ + p)
        },
    }
}

/// Asks the rules about a path.
pub fn require_path(
    sandbox: &str,
    rules: &[PathRule],
    otherwise: bool,
    operation: FileOperation,
    path: &str,
    allow_root: bool,
) -> (r: model::Result<String>)
    ensures
        match path_verdict(
            sandbox@,
            path_rule_views(rules@),
            otherwise,
            operation,
            path@,
            allow_root,
        ) {
            Ok(p) => r is Ok && r->Ok_0@ == p,
            Err(m) => r is Err && r->Err_0@ == model::ErrorView::Workdir(m),
        },
{
    let plain = match validate_relative(path, allow_root) {
        Ok(p) => p,
        Err(e) => return Err(e),
    };
    if allows_path(rules, operation, plain.as_str(), otherwise) {
        return Ok(plain);
    }
    Err(
        Error::Workdir(
            text::cat5(
                sandbox,
                " denied ",
                operation_name(operation),
                " for ",
                plain.as_str(),
            ),
        ),
    )
}

/// Why a program is not run.
pub open spec fn process_denial(sandbox: Seq<char>, program: Seq<char>) -> Seq<char> {
    sandbox + " denied execution of "@ + program
}

/// Asks the rules about a program.
pub fn require_process(sandbox: &str, rules: &[ProcessRule], otherwise: bool, program: &str) -> (r:
    model::Result<()>)
    ensures
        r is Ok == process_allowed(process_rule_views(rules@), program@, otherwise),
        r matches Err(e) ==> e@ == model::ErrorView::Workdir(process_denial(sandbox@, program@)),
{
    if allows_process(rules, program, otherwise) {
        return Ok(());
    }
    Err(Error::Workdir(text::cat3(sandbox, " denied execution of ", program)))
}

// ---------------------------------------------------------------------------
// Writable paths
// ---------------------------------------------------------------------------

/// The paths that a program may write to, or what is wrong with the first bad one.
pub open spec fn writable_verdict(
    sandbox: Seq<char>,
    rules: Seq<PathRuleView>,
    otherwise: bool,
    list: Seq<Seq<char>>,
) -> Result<Seq<Seq<char>>, Seq<char>>
    decreases list.len(),
{
    if list.len() == 0 {
        Ok(Seq::empty())
    } else {
        match writable_verdict(sandbox, rules, otherwise, list.drop_last()) {
            Err(m) => Err(m),
            Ok(earlier) => match path_verdict(
                sandbox,
                rules,
                otherwise,
                FileOperation::Write,
                list.last(),
                true,
            ) {
                Err(m) => Err(m),
                Ok(p) => Ok(earlier.push(p)),
            },
        }
    }
}

proof fn lemma_writable_err(
    sandbox: Seq<char>,
    rules: Seq<PathRuleView>,
    otherwise: bool,
    list: Seq<Seq<char>>,
    n: int,
)
    requires
        0 <= n <= list.len(),
        writable_verdict(sandbox, rules, otherwise, list.take(n)) is Err,
    ensures
        writable_verdict(sandbox, rules, otherwise, list) == writable_verdict(
            sandbox,
            rules,
            otherwise,
            list.take(n),
        ),
    decreases list.len() - n,
{
    if n < list.len() {
        assert(list.take(n + 1).drop_last() =~= list.take(n));
        lemma_writable_err(sandbox, rules, otherwise, list, n + 1);
    } else {
        assert(list.take(n) =~= list);
    }
}

/// Checks the paths that a program may write to.
pub fn require_writable(
    sandbox: &str,
    rules: &[PathRule],
    otherwise: bool,
    list: &[String],
) -> (r: model::Result<Vec<String>>)
    ensures
        match writable_verdict(
            sandbox@,
            path_rule_views(rules@),
            otherwise,
            text::texts(list@),
        ) {
            Ok(plain) => r is Ok && text::texts(r->Ok_0@) == plain,
            Err(m) => r is Err && r->Err_0@ == model::ErrorView::Workdir(m),
        },
{
    let ghost all = text::texts(list@);
    let ghost rule_views = path_rule_views(rules@);
    let mut out: Vec<String> = Vec::new();
    let mut i: usize = 0;
    proof {
        assert(all.take(0) =~= Seq::empty());
        assert(text::texts(out@) =~= Seq::empty());
    }
    while i < list.len()
        invariant
            i <= list@.len(),
            all == text::texts(list@),
            rule_views == path_rule_views(rules@),
            writable_verdict(sandbox@, rule_views, otherwise, all.take(i as int)) is Ok,
            text::texts(out@) == writable_verdict(
                sandbox@,
                rule_views,
                otherwise,
                all.take(i as int),
            )->Ok_0,
        decreases list@.len() - i,
    {
        proof {
            assert(all.take(i + 1).drop_last() =~= all.take(i as int));
            assert(all.take(i + 1).last() == list@[i as int]@);
            if writable_verdict(sandbox@, rule_views, otherwise, all.take(i + 1)) is Err {
                lemma_writable_err(sandbox@, rule_views, otherwise, all, i + 1);
            }
        }
        match require_path(
            sandbox,
            rules,
            otherwise,
            FileOperation::Write,
            list[i].as_str(),
            true,
        ) {
            Ok(p) => text::push_string(&mut out, p),
            Err(e) => return Err(e),
        }
        i += 1;
    }
    proof {
        assert(all.take(i as int) =~= all);
    }
    Ok(out)
}

/// Whatever a program may write to was allowed for writing, and lies in the project.
pub proof fn law_writable_paths_were_allowed(
    sandbox: Seq<char>,
    rules: Seq<PathRuleView>,
    otherwise: bool,
    list: Seq<Seq<char>>,
    i: int,
)
    requires
        writable_verdict(sandbox, rules, otherwise, list) is Ok,
        0 <= i < list.len(),
    ensures
        ({
            let plain = writable_verdict(sandbox, rules, otherwise, list)->Ok_0;
            &&& plain.len() == list.len()
            &&& path_allowed(rules, FileOperation::Write, plain[i], otherwise)
            &&& paths::stays_inside(plain[i])
        }),
    decreases list.len(),
{
    let front = list.drop_last();
    if front.len() > 0 {
        law_writable_paths_were_allowed(sandbox, rules, otherwise, front, if i < front.len() {
            i
        } else {
            0
        });
    } else {
        assert(writable_verdict(sandbox, rules, otherwise, front) == Ok::<
            Seq<Seq<char>>,
            Seq<char>,
        >(Seq::empty()));
    }
    paths::law_plain_paths_hold_names(list.last());
}

// ---------------------------------------------------------------------------
// Probes
// ---------------------------------------------------------------------------

/// How running a probe ended.
pub enum Probe {
    /// It could not be run.
    Failed(String),
    /// It ended with this status and these errors.
    Ended(i32, Vec<u8>),
}

/// What is wrong with a sandbox, by how its probe ended.
pub open spec fn probe_complaint(sandbox: Seq<char>, probe: Probe) -> Option<Seq<char>> {
    match probe {
        Probe::Failed(m) => Some(sandbox + " unavailable: "@ + m@),
        Probe::Ended(status, stderr) => if status == 0 {
            None
        } else {
            Some(
                sandbox + " probe failed with status "@ + text::signed_decimal(status as int)
                    + ": "@ + bytes::lossy(stderr@),
            )
        },
    }
}

/// Whether a sandbox can be used, by how its probe ended.
pub fn probe_verdict(sandbox: &str, probe: &Probe) -> (r: model::Result<()>)
    ensures
        match probe_complaint(sandbox@, *probe) {
            None => r is Ok,
            Some(m) => r is Err && r->Err_0@ == model::ErrorView::Workdir(m),
        },
{
    match probe {
        Probe::Failed(m) => Err(Error::Workdir(text::cat3(sandbox, " unavailable: ", m.as_str()))),
        Probe::Ended(status, stderr) => {
            if *status == 0 {
                return Ok(());
            }
            Err(
                Error::Workdir(
                    text::cat5(
                        sandbox,
                        " probe failed with status ",
                        text::signed_text(*status as i64).as_str(),
                        ": ",
                        bytes::lossy_text(stderr.as_slice()).as_str(),
                    ),
                ),
            )
        },
    }
}

// ---------------------------------------------------------------------------
// Running programs
// ---------------------------------------------------------------------------

/// How far running a program in a sandbox has come.
pub enum Stage {
    /// Nothing has run; the probe comes first, and the program in its sandbox after it.
    Fresh { probe: CommandSpec, confined: CommandSpec },
    /// The probe runs.
    Probing { confined: CommandSpec },
    Ended,
}

/// A program that is to be run in a sandbox.
pub struct SandboxRun {
    /// How the sandbox is called in messages.
    pub sandbox: &'static str,
    pub stage: Stage,
}

/// What happens while a program is run in a sandbox.
pub enum RunEvent {
    Begin,
    /// The probe was run.
    Probed(Probe),
}

/// What is done next.
pub enum RunStep {
    /// This command is run.
    Execute(CommandSpec),
    /// The program is not run.
    Refuse(Error),
    Nothing,
}

pub ghost enum StageView {
    Fresh(model::CommandView, model::CommandView),
    Probing(model::CommandView),
    Ended,
}

pub ghost enum StepView {
    Execute(model::CommandView),
    Refuse(model::ErrorView),
    Nothing,
}

impl View for Stage {
    type V = StageView;

    open spec fn view(&self) -> StageView {
        match *self {
            Stage::Fresh { probe, confined } => StageView::Fresh(probe@, confined@),
            Stage::Probing { confined } => StageView::Probing(confined@),
            Stage::Ended => StageView::Ended,
        }
    }
}

impl View for RunStep {
    type V = StepView;

    open spec fn view(&self) -> StepView {
        match *self {
            RunStep::Execute(command) => StepView::Execute(command@),
            RunStep::Refuse(e) => StepView::Refuse(e@),
            RunStep::Nothing => StepView::Nothing,
        }
    }
}

/// What an event leads to: the probe is run first, and the program only after a probe
/// that shows nothing wrong.
pub open spec fn stepped(sandbox: Seq<char>, stage: StageView, event: RunEvent) -> (
    StageView,
    StepView,
) {
    match (stage, event) {
        (StageView::Fresh(probe, confined), RunEvent::Begin) => (
            StageView::Probing(confined),
            StepView::Execute(probe),
        ),
        (StageView::Probing(confined), RunEvent::Probed(probe)) => match probe_complaint(
            sandbox,
            probe,
        ) {
            None => (StageView::Ended, StepView::Execute(confined)),
            Some(m) => (StageView::Ended, StepView::Refuse(model::ErrorView::Workdir(m))),
        },
        _ => (stage, StepView::Nothing),
    }
}

impl SandboxRun {
    /// Takes in an event, and decides what is done next.
    pub fn step(self, event: &RunEvent) -> (r: (SandboxRun, RunStep))
        ensures
            r.0.sandbox == self.sandbox,
            (r.0.stage@, r.1@) == stepped(self.sandbox@, self.stage@, *event),
    {
        let sandbox = self.sandbox;
        match (self.stage, event) {
            (Stage::Fresh { probe, confined }, RunEvent::Begin) => (
                SandboxRun { sandbox, stage: Stage::Probing { confined } },
                RunStep::Execute(probe),
            ),
            (Stage::Probing { confined }, RunEvent::Probed(probe)) => {
                let ended = SandboxRun { sandbox, stage: Stage::Ended };
                match probe_verdict(sandbox, probe) {
                    Ok(()) => (ended, RunStep::Execute(confined)),
                    Err(e) => (ended, RunStep::Refuse(e)),
                }
            },
            (stage, _) => (SandboxRun { sandbox, stage }, RunStep::Nothing),
        }
    }
}

/// The commands that are run while events come in.
pub open spec fn commands_run(sandbox: Seq<char>, stage: StageView, events: Seq<RunEvent>) -> Seq<
    model::CommandView,
>
    decreases events.len(),
{
    if events.len() == 0 {
        Seq::empty()
    } else {
        let (next, step) = stepped(sandbox, stage, events[0]);
        (match step {
            StepView::Execute(command) => seq![command],
            _ => Seq::empty(),
        }) + commands_run(sandbox, next, events.drop_first())
    }
}

proof fn lemma_commands_run(sandbox: Seq<char>, stage: StageView, events: Seq<RunEvent>)
    ensures
        match stage {
            StageView::Fresh(probe, confined) => {
                let run = commands_run(sandbox, stage, events);
                ||| run == Seq::<model::CommandView>::empty()
                ||| run == seq![probe]
                ||| run == seq![probe, confined] && exists|i: int|
                    0 < i < events.len() && ((#[trigger] events[i]) matches RunEvent::Probed(p)
                        && probe_complaint(sandbox, p) is None)
            },
            StageView::Probing(confined) => {
                let run = commands_run(sandbox, stage, events);
                ||| run == Seq::<model::CommandView>::empty()
                ||| run == seq![confined] && exists|i: int|
                    0 <= i < events.len() && ((#[trigger] events[i]) matches RunEvent::Probed(p)
                        && probe_complaint(sandbox, p) is None)
            },
            StageView::Ended => commands_run(sandbox, stage, events) == Seq::<
                model::CommandView,
            >::empty(),
        },
    decreases events.len(),
{
    if events.len() > 0 {
        let rest = events.drop_first();
        let (next, step) = stepped(sandbox, stage, events[0]);
        lemma_commands_run(sandbox, next, rest);
        let later = commands_run(sandbox, next, rest);
        let none = Seq::<model::CommandView>::empty();
        assert(none + later =~= later);
        if let StepView::Execute(command) = step {
            assert(seq![command] + none =~= seq![command]);
            if later.len() == 1 {
                assert(seq![command] + later =~= seq![command, later[0]]);
            }
        }
        if exists|i: int|
            0 <= i < rest.len() && ((#[trigger] rest[i]) matches RunEvent::Probed(p)
                && probe_complaint(sandbox, p) is None) {
            let i = choose|i: int|
                0 <= i < rest.len() && ((#[trigger] rest[i]) matches RunEvent::Probed(p)
                    && probe_complaint(sandbox, p) is None);
            assert(events[i + 1] == rest[i]);
        }
    }
}

/// Whatever happens, nothing is run before the probe and nothing but the program in
/// its sandbox after it, and that only where the probe showed nothing wrong.
pub proof fn law_the_probe_comes_first(
    sandbox: Seq<char>,
    probe: model::CommandView,
    confined: model::CommandView,
    events: Seq<RunEvent>,
)
    ensures
        ({
            let run = commands_run(sandbox, StageView::Fresh(probe, confined), events);
            ||| run == Seq::<model::CommandView>::empty()
            ||| run == seq![probe]
            ||| run == seq![probe, confined] && exists|i: int|
                0 < i < events.len() && ((#[trigger] events[i]) matches RunEvent::Probed(p)
                    && probe_complaint(sandbox, p) is None)
        }),
{
    lemma_commands_run(sandbox, StageView::Fresh(probe, confined), events);
}

/// After a probe that failed nothing more is run, whatever happens then.
pub proof fn law_a_failed_probe_ends_the_run(
    sandbox: Seq<char>,
    probe: model::CommandView,
    confined: model::CommandView,
    outcome: Probe,
    later: Seq<RunEvent>,
)
    requires
        probe_complaint(sandbox, outcome) is Some,
    ensures
        commands_run(
            sandbox,
            StageView::Fresh(probe, confined),
            seq![RunEvent::Begin, RunEvent::Probed(outcome)] + later,
        ) == seq![probe],
        stepped(sandbox, StageView::Probing(confined), RunEvent::Probed(outcome)).1
            == StepView::Refuse(
            model::ErrorView::Workdir(probe_complaint(sandbox, outcome)->0),
        ),
{
    let events = seq![RunEvent::Begin, RunEvent::Probed(outcome)] + later;
    let rest = events.drop_first();
    assert(rest[0] == RunEvent::Probed(outcome));
    assert(rest.drop_first() =~= later);
    lemma_commands_run(sandbox, StageView::Ended, later);
    let none = Seq::<model::CommandView>::empty();
    assert(none + none =~= none);
    assert(seq![probe] + none =~= seq![probe]);
    assert(commands_run(sandbox, StageView::Probing(confined), rest) == none);
}

/// A rule speaks of its path and of all that lies under it, and of nothing else; one
/// without an operation speaks of all of them.
pub proof fn law_rules_speak_of_what_lies_under_them(
    rule: PathRuleView,
    operation: FileOperation,
    base: Seq<Seq<char>>,
    names: Seq<Seq<char>>,
)
    requires
        paths::all_names(base),
        paths::all_names(names),
        rule.path == text::joined(base, "/"@),
    ensures
        path_rule_fits(rule, operation, text::joined(names, "/"@)) <==> (rule.operation is None
            || rule.operation == Some(operation)) && base.len() <= names.len() && names.take(
            base.len() as int,
        ) == base,
{
    paths::lemma_names_are_read_back(base);
    paths::lemma_names_are_read_back(names);
    let n = base.len() as int;
    let a = paths::named(base);
    let b = paths::named(names);
    assert(a.len() == base.len() && b.len() == names.len());
    if base.len() <= names.len() {
        if names.take(n) == base {
            assert(b.take(n) =~= a);
        }
        if b.take(n) == a {
            assert forall|i: int| 0 <= i < n implies names.take(n)[i] == base[i] by {
                assert(b.take(n)[i] == a[i]);
            }
            assert(names.take(n) =~= base);
        }
    }
}

/// A path that leaves the project, or that is given from the root, is refused; one that
/// is made of names is taken as it is.
pub proof fn law_paths_may_not_leave_the_project(
    path: Seq<char>,
    names: Seq<Seq<char>>,
    allow_root: bool,
)
    requires
        paths::all_names(names),
        names.len() > 0,
        path.len() > 0,
    ensures
        validated(seq!['/'] + path, allow_root) is Err,
        validated(path + seq!['/'] + ".."@, allow_root) is Err,
        validated(".."@, allow_root) is Err,
        validated(text::joined(names, "/"@), allow_root) == Ok::<Seq<char>, Seq<char>>(
            text::joined(names, "/"@),
        ),
        validated(Seq::empty(), false) is Err,
        validated(Seq::empty(), true) == Ok::<Seq<char>, Seq<char>>(Seq::empty()),
{
    reveal_strlit("..");
    reveal_strlit(".");
    let up = ".."@;
    assert(!up.contains('/')) by {
        if up.contains('/') {
            let k = up.index_of('/');
            assert(up[k] == '/');
        }
    }
    paths::law_steps_stand_between_slashes(path, up);
    let out = path + seq!['/'] + up;
    let steps = paths::parts(out);
    assert(steps[steps.len() - 1] == paths::PartView::Up);
    text::law_texts_are_cut_at_separators(up, '/', up);
    assert("."@.len() == 1 && up.len() == 2);
    assert(seq![up].drop_last() =~= Seq::empty());
    assert(paths::parts_of(seq![up]) =~= seq![paths::PartView::Up]) by {
        reveal_with_fuel(paths::parts_of, 2);
    }
    assert(paths::parts(up) =~= seq![paths::PartView::Up]);
    assert(paths::parts(up)[0] == paths::PartView::Up);
    lemma_names_are_plain(names);
    lemma_names_are_plain(Seq::empty());
    assert(text::joined(Seq::<Seq<char>>::empty(), "/"@) =~= Seq::empty());
}

/// A path of names is plain as it stands.
pub proof fn lemma_names_are_plain(names: Seq<Seq<char>>)
    requires
        paths::all_names(names),
    ensures
        paths::plain(text::joined(names, "/"@)) == text::joined(names, "/"@),
        paths::stays_inside(text::joined(names, "/"@)),
        !paths::is_absolute(text::joined(names, "/"@)),
        names.len() == 0 <==> text::joined(names, "/"@).len() == 0,
{
    let path = text::joined(names, "/"@);
    paths::lemma_names_are_read_back(names);
    lemma_named(names);
    assert forall|i: int| 0 <= i < paths::parts(path).len() implies (#[trigger] paths::parts(
        path,
    )[i]) != paths::PartView::Up && paths::parts(path)[i] != paths::PartView::Root by {
        assert(paths::named(names)[i] == paths::PartView::Name(names[i]));
    }
}

proof fn lemma_named(names: Seq<Seq<char>>)
    ensures
        paths::names_of(paths::named(names)) == names,
    decreases names.len(),
{
    if names.len() > 0 {
        lemma_named(names.drop_last());
        assert(paths::named(names).drop_last() =~= paths::named(names.drop_last()));
        assert(paths::named(names).last() == paths::PartView::Name(names.last()));
        assert(names.drop_last().push(names.last()) =~= names);
    } else {
        assert(paths::names_of(paths::named(names)) =~= names);
    }
}

/// A path is let through exactly where it stays inside and the rules allow it. A probe
/// is passed exactly where it ended well. A rule without a program speaks of all.
pub proof fn law_only_what_is_allowed_passes(
    sandbox: Seq<char>,
    rules: Seq<PathRuleView>,
    otherwise: bool,
    operation: FileOperation,
    path: Seq<char>,
    allow_root: bool,
    probe: Probe,
    rule: ProcessRuleView,
    program: Seq<char>,
)
    ensures
        path_verdict(sandbox, rules, otherwise, operation, path, allow_root) is Ok <==> (validated(
            path,
            allow_root,
        ) matches Ok(p) && path_allowed(rules, operation, p, otherwise)),
        path_verdict(sandbox, rules, otherwise, operation, path, allow_root) matches Ok(p)
            ==> validated(path, allow_root) == Ok::<Seq<char>, Seq<char>>(p),
        probe_complaint(sandbox, probe) is None <==> (probe matches Probe::Ended(status, _) && status
            == 0),
        process_rule_fits(rule, program) <==> rule.program is None || rule.program == Some(program),
{
}

/// Rules keep their order, their operations and what they allow; only their paths are
/// made plain.
pub proof fn law_rules_keep_their_meaning(rules: Seq<PathRuleView>, i: int)
    requires
        0 <= i < rules.len(),
    ensures
        plain_rules(rules) matches Ok(plain) ==> {
            &&& plain.len() == rules.len()
            &&& plain[i].allow == rules[i].allow
            &&& plain[i].operation == rules[i].operation
            &&& plain[i].path == paths::plain(rules[i].path)
            &&& paths::stays_inside(rules[i].path)
        },
    decreases rules.len(),
{
    if plain_rules(rules) is Ok {
        let front = rules.drop_last();
        if front.len() > 0 {
            law_rules_keep_their_meaning(front, 0);
        }
        if i < front.len() {
            law_rules_keep_their_meaning(front, i);
        }
    }
}

/// A refusal tells the sandbox, what was to be done and with what.
pub proof fn law_refusals_tell_what_was_refused(
    sandbox: Seq<char>,
    program: Seq<char>,
    otherwise: bool,
    names: Seq<Seq<char>>,
    operation: FileOperation,
)
    requires
        paths::all_names(names),
        names.len() > 0,
    ensures
        process_denial(sandbox, program) == sandbox + " denied execution of "@ + program,
        path_verdict(
            sandbox,
            Seq::empty(),
            false,
            operation,
            text::joined(names, "/"@),
            true,
        ) == Err::<Seq<char>, Seq<char>>(
            sandbox + " denied "@ + (match operation {
                FileOperation::Read => "Read"@,
                FileOperation::Write => "Write"@,
                FileOperation::Remove => "Remove"@,
            }) + " for "@ + text::joined(names, "/"@),
        ),
{
    lemma_names_are_plain(names);
}

} // verus!
