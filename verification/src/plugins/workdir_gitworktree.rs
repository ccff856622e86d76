//! A worktree of its own for each session. Every operation is a fixed series of
//! steps; each asks one thing of Git or the file system, and goes on only where
//! the reply is the one that is expected.
use crate::bytes;
use crate::digest;
use crate::ids;
use crate::ids::{MessageId, ProjectId, SessionId};
use crate::model;
use crate::model::{CommandSpec, Error};
use crate::paths;
use crate::plugins::registration;
use crate::plugins::registration::{Registration, RegistrationKind, RegistrationView};
use crate::text;
use vstd::prelude::*;

verus! {

pub const PLUGIN_ID: &'static str = "builtin.git-worktree";

pub const LAYER_ID: &'static str = "builtin.git-worktree";

pub const APPLY_COMMAND_ID: &'static str = "builtin.git-worktree.apply";

pub const DISCARD_COMMAND_ID: &'static str = "builtin.git-worktree.discard";

pub const REVERT_COMMAND_ID: &'static str = "builtin.git-worktree.revert";

pub const USER_HOOK_ID: &'static str = "builtin.git-worktree.checkpoint";

pub const BEFORE_TOOL_HOOK_ID: &'static str = "builtin.git-worktree.before-tool";

pub const AFTER_TOOL_HOOK_ID: &'static str = "builtin.git-worktree.after-tool";

/// Where the project is, and where worktrees are kept.
#[derive(Clone, Debug, PartialEq, Eq)]
pub struct GitWorktreeConfig {
    pub project: String,
    pub data_dir: String,
}

impl GitWorktreeConfig {
    pub fn new(project: String, data_dir: String) -> (r: Self)
        ensures
            r.project == project,
            r.data_dir == data_dir,
    {
        GitWorktreeConfig { project, data_dir }
    }

    /// The directory for data, as seen from `current`.
    pub fn data_path(&self, current: &str) -> (r: String)
        ensures
            r@ == (if paths::is_absolute(self.data_dir@) {
                self.data_dir@
            } else {
                paths::joined(current@, self.data_dir@)
            }),
    {
        if paths::absolute(self.data_dir.as_str()) {
            text::owned(self.data_dir.as_str())
        } else {
            paths::join(current, self.data_dir.as_str())
        }
    }
}

/// The plugin that gives each session its worktree.
pub struct GitWorktreePlugin {
    pub config: GitWorktreeConfig,
}

/// Makes the plugin.
pub fn git_worktree_plugin(config: GitWorktreeConfig) -> (r: GitWorktreePlugin)
    ensures
        r.config == config,
{
    GitWorktreePlugin { config }
}

// ---------------------------------------------------------------------------
// Replies of Git
// ---------------------------------------------------------------------------

/// What a run of Git left behind.
pub struct GitOutput {
    pub success: bool,
    pub stdout: Vec<u8>,
    pub stderr: Vec<u8>,
}

/// How a run of Git ended: its output, or why it could not be run.
pub type GitReply = core::result::Result<GitOutput, String>;

pub ghost struct GitOutputView {
    pub success: bool,
    pub stdout: Seq<u8>,
    pub stderr: Seq<u8>,
}

pub open spec fn git_view(reply: GitReply) -> Result<GitOutputView, Seq<char>> {
    match reply {
        Ok(o) => Ok(GitOutputView { success: o.success, stdout: o.stdout@, stderr: o.stderr@ }),
        Err(m) => Err(m@),
    }
}

/// What Git printed, where it succeeded in `action`.
pub open spec fn printed(action: Seq<char>, reply: Result<GitOutputView, Seq<char>>) -> Result<
    Seq<u8>,
    Seq<char>,
> {
    match reply {
        Err(m) => Err("could not run git: "@ + m),
        Ok(o) => if o.success {
            Ok(o.stdout)
        } else {
            Err("could not "@ + action + ": "@ + text::trimmed(bytes::lossy(o.stderr)))
        },
    }
}

/// The text that Git printed, without white space around it.
pub open spec fn printed_text(reply: Result<GitOutputView, Seq<char>>) -> Result<
    Seq<char>,
    Seq<char>,
> {
    match printed("run Git command"@, reply) {
        Err(m) => Err(m),
        Ok(stdout) => if vstd::utf8::valid_utf8(stdout) {
            Ok(text::trimmed(vstd::utf8::decode_utf8(stdout)))
        } else {
            Err("Git returned non-UTF-8 output: "@ + text::utf8_complaint(stdout))
        },
    }
}

/// What Git printed, where it succeeded in `action`.
pub fn ensure_success(action: &str, reply: GitReply) -> (r: core::result::Result<Vec<u8>, String>)
    ensures
        match printed(action@, git_view(reply)) {
            Ok(stdout) => r is Ok && r->Ok_0@ == stdout,
            Err(m) => r is Err && r->Err_0@ == m,
        },
{
    match reply {
        Err(m) => Err(text::cat2("could not run git: ", m.as_str())),
        Ok(o) => {
            if o.success {
                return Ok(o.stdout);
            }
            let errors = bytes::lossy_text(o.stderr.as_slice());
            Err(text::cat4("could not ", action, ": ", text::trim(errors.as_str())))
        },
    }
}

/// The text that Git printed, without white space around it.
pub fn git_stdout(reply: GitReply) -> (r: core::result::Result<String, String>)
    ensures
        match printed_text(git_view(reply)) {
            Ok(t) => r is Ok && r->Ok_0@ == t,
            Err(m) => r is Err && r->Err_0@ == m,
        },
{
    let stdout = match ensure_success("run Git command", reply) {
        Ok(b) => b,
        Err(m) => return Err(m),
    };
    match text::utf8_text(stdout) {
        Ok(t) => {
            proof {
                vstd::utf8::encode_utf8_decode_utf8(t@);
            }
            Ok(text::owned(text::trim(t.as_str())))
        },
        Err(m) => Err(text::cat2("Git returned non-UTF-8 output: ", m.as_str())),
    }
}

/// The settings with which Git always runs.
pub open spec fn git_settings() -> Seq<Seq<char>> {
    seq![
        "-c"@,
        "core.hooksPath=/dev/null"@,
        "-c"@,
        "commit.gpgSign=false"@,
        "-c"@,
        "tag.gpgSign=false"@,
    ]
}

/// The variables with which Git always runs: it never asks anything.
pub open spec fn git_environment() -> Seq<(Seq<char>, Seq<char>)> {
    seq![
        ("GIT_TERMINAL_PROMPT"@, "0"@),
        ("GIT_ASKPASS"@, ""@),
        ("SSH_ASKPASS"@, ""@),
        ("GIT_EDITOR"@, "true"@),
        ("GIT_SEQUENCE_EDITOR"@, "true"@),
        ("GIT_AUTHOR_NAME"@, "Airicode"@),
        ("GIT_AUTHOR_EMAIL"@, "airicode@localhost"@),
        ("GIT_COMMITTER_NAME"@, "Airicode"@),
        ("GIT_COMMITTER_EMAIL"@, "airicode@localhost"@),
    ]
}

fn push_variable(env: &mut Vec<(String, String)>, key: &str, value: &str)
    ensures
        model::pair_views(final(env)@) == model::pair_views(old(env)@).push((key@, value@)),
{
    let ghost before = model::pair_views(env@);
    env.push((text::owned(key), text::owned(value)));
    proof {
        assert(model::pair_views(env@) =~= before.push((key@, value@)));
    }
}

/// The command that runs Git in `cwd`.
pub fn git(cwd: &str, args: &[String]) -> (r: CommandSpec)
    ensures
        r@ == (model::CommandView {
            program: "git"@,
            args: git_settings() + text::texts(args@),
            cwd: Some(cwd@),
            env: git_environment(),
            max_output_bytes: None,
        }),
{
    let mut all = text::no_texts();
    text::push_all(
        &mut all,
        &[
            "-c",
            "core.hooksPath=/dev/null",
            "-c",
            "commit.gpgSign=false",
            "-c",
            "tag.gpgSign=false",
        ],
    );
    text::push_texts(&mut all, args);
    let mut env: Vec<(String, String)> = Vec::new();
    proof {
        assert(model::pair_views(env@) =~= Seq::empty());
    }
    push_variable(&mut env, "GIT_TERMINAL_PROMPT", "0");
    push_variable(&mut env, "GIT_ASKPASS", "");
    push_variable(&mut env, "SSH_ASKPASS", "");
    push_variable(&mut env, "GIT_EDITOR", "true");
    push_variable(&mut env, "GIT_SEQUENCE_EDITOR", "true");
    push_variable(&mut env, "GIT_AUTHOR_NAME", "Airicode");
    push_variable(&mut env, "GIT_AUTHOR_EMAIL", "airicode@localhost");
    push_variable(&mut env, "GIT_COMMITTER_NAME", "Airicode");
    push_variable(&mut env, "GIT_COMMITTER_EMAIL", "airicode@localhost");
    let r = CommandSpec {
        program: text::owned("git"),
        args: all,
        cwd: Some(text::owned(cwd)),
        env,
        max_output_bytes: None,
    };
    proof {
        assert(r@.args =~= git_settings() + text::texts(args@));
        assert(r@.env =~= git_environment());
    }
    r
}

// ---------------------------------------------------------------------------
// The state of a session
// ---------------------------------------------------------------------------

/// A tool call that has begun and not ended.
pub struct PendingTool {
    pub call_id: String,
    pub expected_head: String,
}

/// What is known of the worktree of a session.
pub struct ManagedState {
    pub project_id: ProjectId,
    pub session_id: SessionId,
    pub source_project: String,
    pub repository: String,
    pub common_dir: String,
    pub path: String,
    pub state_file: String,
    pub base_head: String,
    pub expected_head: String,
    /// The head before each message, each message once.
    pub checkpoints: Vec<(MessageId, String)>,
    pub pending: Option<PendingTool>,
}

pub ghost struct PendingView {
    pub call_id: Seq<char>,
    pub expected_head: Seq<char>,
}

pub ghost struct ManagedView {
    pub project_id: ProjectId,
    pub session_id: SessionId,
    pub source_project: Seq<char>,
    pub repository: Seq<char>,
    pub common_dir: Seq<char>,
    pub path: Seq<char>,
    pub state_file: Seq<char>,
    pub base_head: Seq<char>,
    pub expected_head: Seq<char>,
    pub checkpoints: Seq<(MessageId, Seq<char>)>,
    pub pending: Option<PendingView>,
}

pub open spec fn checkpoint_views(list: Seq<(MessageId, String)>) -> Seq<(MessageId, Seq<char>)> {
    list.map_values(|c: (MessageId, String)| (c.0, c.1@))
}

pub open spec fn pending_view(pending: Option<PendingTool>) -> Option<PendingView> {
    match pending {
        Some(p) => Some(PendingView { call_id: p.call_id@, expected_head: p.expected_head@ }),
        None => None,
    }
}

impl View for ManagedState {
    type V = ManagedView;

    open spec fn view(&self) -> ManagedView {
        ManagedView {
            project_id: self.project_id,
            session_id: self.session_id,
            source_project: self.source_project@,
            repository: self.repository@,
            common_dir: self.common_dir@,
            path: self.path@,
            state_file: self.state_file@,
            base_head: self.base_head@,
            expected_head: self.expected_head@,
            checkpoints: checkpoint_views(self.checkpoints@),
            pending: pending_view(self.pending),
        }
    }
}

/// The head before the message `id`.
pub open spec fn checkpoint_of(list: Seq<(MessageId, Seq<char>)>, id: MessageId) -> Option<Seq<char>>
    decreases list.len(),
{
    if list.len() == 0 {
        None
    } else if list[0].0 == id {
        Some(list[0].1)
    } else {
        checkpoint_of(list.drop_first(), id)
    }
}

/// The heads with `head` before the message `id`.
pub open spec fn with_checkpoint(
    list: Seq<(MessageId, Seq<char>)>,
    id: MessageId,
    head: Seq<char>,
) -> Seq<(MessageId, Seq<char>)>
    decreases list.len(),
{
    if list.len() == 0 {
        seq![(id, head)]
    } else if list[0].0 == id {
        seq![(id, head)] + list.drop_first()
    } else {
        seq![list[0]] + with_checkpoint(list.drop_first(), id, head)
    }
}

/// A checkpoint is found as it was set, and setting it leaves the others alone.
pub proof fn law_checkpoints_are_found(
    list: Seq<(MessageId, Seq<char>)>,
    id: MessageId,
    head: Seq<char>,
    other: MessageId,
)
    ensures
        checkpoint_of(with_checkpoint(list, id, head), id) == Some(head),
        other != id ==> checkpoint_of(with_checkpoint(list, id, head), other) == checkpoint_of(
            list,
            other,
        ),
    decreases list.len(),
{
    let after = with_checkpoint(list, id, head);
    if list.len() == 0 {
        assert(after.drop_first() =~= list);
    } else if list[0].0 == id {
        assert(after.drop_first() =~= list.drop_first());
    } else {
        law_checkpoints_are_found(list.drop_first(), id, head, other);
        assert(after.drop_first() =~= with_checkpoint(list.drop_first(), id, head));
    }
}

/// The head before the message `id`.
pub fn find_checkpoint(list: &Vec<(MessageId, String)>, id: MessageId) -> (r: Option<String>)
    ensures
        text::opt_text(r) == checkpoint_of(checkpoint_views(list@), id),
{
    let ghost all = checkpoint_views(list@);
    let mut i: usize = 0;
    proof {
        assert(all.skip(0) =~= all);
    }
    while i < list.len()
        invariant
            i <= list@.len(),
            all == checkpoint_views(list@),
            checkpoint_of(all, id) == checkpoint_of(all.skip(i as int), id),
        decreases list@.len() - i,
    {
        proof {
            assert(all.skip(i as int)[0] == (list@[i as int].0, list@[i as int].1@));
            assert(all.skip(i as int).drop_first() =~= all.skip(i + 1));
        }
        if list[i].0 == id {
            return Some(text::owned(list[i].1.as_str()));
        }
        i += 1;
    }
    None
}

proof fn lemma_with_checkpoint(list: Seq<(MessageId, Seq<char>)>, id: MessageId, head: Seq<char>, n: int)
    requires
        0 <= n <= list.len(),
        forall|j: int| 0 <= j < n ==> (#[trigger] list[j]).0 != id,
        n < list.len() ==> list[n].0 == id,
    ensures
        with_checkpoint(list, id, head) == (if n < list.len() {
            list.update(n, (id, head))
        } else {
            list.push((id, head))
        }),
    decreases list.len(),
{
    if list.len() == 0 {
        assert(list.push((id, head)) =~= seq![(id, head)]);
    } else if n == 0 {
        assert(seq![(id, head)] + list.drop_first() =~= list.update(0, (id, head)));
    } else {
        assert(list[0].0 != id);
        let rest = list.drop_first();
        assert forall|j: int| 0 <= j < n - 1 implies (#[trigger] rest[j]).0 != id by {
            assert(rest[j] == list[j + 1]);
        }
        lemma_with_checkpoint(rest, id, head, n - 1);
        if n < list.len() {
            assert(seq![list[0]] + rest.update(n - 1, (id, head)) =~= list.update(n, (id, head)));
        } else {
            assert(seq![list[0]] + rest.push((id, head)) =~= list.push((id, head)));
        }
    }
}

/// Sets the head before the message `id`.
pub fn set_checkpoint(list: &mut Vec<(MessageId, String)>, id: MessageId, head: &str)
    ensures
        checkpoint_views(final(list)@) == with_checkpoint(
            checkpoint_views(old(list)@),
            id,
            head@,
        ),
{
    let ghost all = checkpoint_views(list@);
    let mut i: usize = 0;
    while i < list.len() && list[i].0 != id
        invariant
            i <= list@.len(),
            all == checkpoint_views(list@),
            forall|j: int| 0 <= j < i ==> (#[trigger] all[j]).0 != id,
        decreases list@.len() - i,
    {
        i += 1;
    }
    proof {
        if i < list@.len() {
            assert(all[i as int].0 == id);
        }
        lemma_with_checkpoint(all, id, head@, i as int);
    }
    if i < list.len() {
        list.set(i, (id, text::owned(head)));
        proof {
            assert(checkpoint_views(list@) =~= all.update(i as int, (id, head@)));
        }
    } else {
        list.push((id, text::owned(head)));
        proof {
            assert(checkpoint_views(list@) =~= all.push((id, head@)));
        }
    }
}

// ---------------------------------------------------------------------------
// The service
// ---------------------------------------------------------------------------

/// What manages the worktrees of a project.
pub struct WorktreeService {
    pub source_project: String,
    pub repository: String,
    pub project_relative: String,
    pub common_dir: String,
    pub managed_root: String,
    pub project_hash: String,
}

pub ghost struct ServiceView {
    pub source_project: Seq<char>,
    pub repository: Seq<char>,
    pub project_relative: Seq<char>,
    pub common_dir: Seq<char>,
    pub managed_root: Seq<char>,
    pub project_hash: Seq<char>,
}

impl View for WorktreeService {
    type V = ServiceView;

    open spec fn view(&self) -> ServiceView {
        ServiceView {
            source_project: self.source_project@,
            repository: self.repository@,
            project_relative: self.project_relative@,
            common_dir: self.common_dir@,
            managed_root: self.managed_root@,
            project_hash: self.project_hash@,
        }
    }
}

/// The hexadecimal digest of a text.
pub open spec fn text_hash(t: Seq<char>) -> Seq<char> {
    digest::hex(digest::sha256(vstd::utf8::encode_utf8(t)))
}

/// Where the worktree of a session is.
pub open spec fn session_path(service: ServiceView, session: SessionId) -> Seq<char> {
    paths::joined(
        paths::joined(service.managed_root, service.project_hash),
        text_hash(ids::uuid_spelling(session.0)),
    )
}

/// Where the state of a session is kept.
pub open spec fn state_file(service: ServiceView, session: SessionId) -> Seq<char> {
    paths::joined(
        paths::joined(service.managed_root, service.project_hash),
        text_hash(ids::uuid_spelling(session.0)) + ".json"@,
    )
}

/// Whether a state is that of a session of this project.
pub open spec fn is_own(service: ServiceView, state: ManagedView, session: SessionId) -> bool {
    &&& state.session_id == session
    &&& paths::is_same(state.source_project, service.source_project)
    &&& paths::is_same(state.repository, service.repository)
    &&& paths::is_same(state.common_dir, service.common_dir)
    &&& paths::is_same(state.path, session_path(service, session))
    &&& paths::is_same(state.state_file, state_file(service, session))
}

/// What is wrong with using a state for a session of a project.
pub open spec fn identity_complaint(
    service: ServiceView,
    state: ManagedView,
    project: ProjectId,
    session: SessionId,
) -> Option<Seq<char>> {
    if !is_own(service, state, session) {
        Some("managed worktree state does not match this project/session"@)
    } else if state.project_id != project {
        Some("managed worktree belongs to another runtime project"@)
    } else {
        None
    }
}

impl WorktreeService {
    /// A service for a project in a repository. All paths are resolved.
    pub fn new(source_project: &str, repository: &str, common_dir: &str, data_dir: &str) -> (r:
        model::Result<WorktreeService>)
        ensures
            match paths::stripped(source_project@, repository@) {
                None => r is Err && r->Err_0@ == model::ErrorView::Plugin(
                    "Git project is outside its repository root"@,
                ),
                Some(relative) => r is Ok && r->Ok_0@ == (ServiceView {
                    source_project: source_project@,
                    repository: repository@,
                    project_relative: relative,
                    common_dir: common_dir@,
                    managed_root: paths::joined(data_dir@, "worktrees"@),
                    project_hash: text_hash(source_project@),
                }),
            },
    {
        let relative = match paths::strip_prefix(source_project, repository) {
            Some(p) => p,
            None => return Err(
                Error::Plugin(text::owned("Git project is outside its repository root")),
            ),
        };
        Ok(
            WorktreeService {
                source_project: text::owned(source_project),
                repository: text::owned(repository),
                project_relative: relative,
                common_dir: text::owned(common_dir),
                managed_root: paths::join(data_dir, "worktrees"),
                project_hash: digest::sha256_hex(source_project.as_bytes()),
            },
        )
    }

    /// Where the worktree of a session is.
    pub fn session_path(&self, session: SessionId) -> (r: String)
        ensures
            r@ == session_path(self@, session),
    {
        let project = paths::join(self.managed_root.as_str(), self.project_hash.as_str());
        let hash = digest::sha256_hex(session.spelled().as_str().as_bytes());
        paths::join(project.as_str(), hash.as_str())
    }

    /// Where the state of a session is kept.
    pub fn state_file(&self, session: SessionId) -> (r: String)
        ensures
            r@ == state_file(self@, session),
    {
        let project = paths::join(self.managed_root.as_str(), self.project_hash.as_str());
        let hash = digest::sha256_hex(session.spelled().as_str().as_bytes());
        paths::join(project.as_str(), text::cat2(hash.as_str(), ".json").as_str())
    }

    /// Checks that a state that was kept belongs to a session of this project.
    pub fn verify_persisted_identity(&self, state: &ManagedState, session: SessionId) -> (r:
        model::Result<()>)
        ensures
            r is Ok == is_own(self@, state@, session),
            r matches Err(e) ==> e@ == model::ErrorView::Workdir(
                "managed worktree state does not match this project/session"@,
            ),
    {
        let own = state.session_id == session && paths::same_path(
            state.source_project.as_str(),
            self.source_project.as_str(),
        ) && paths::same_path(state.repository.as_str(), self.repository.as_str())
            && paths::same_path(state.common_dir.as_str(), self.common_dir.as_str())
            && paths::same_path(state.path.as_str(), self.session_path(session).as_str())
            && paths::same_path(state.state_file.as_str(), self.state_file(session).as_str());
        if own {
            Ok(())
        } else {
            Err(
                Error::Workdir(
                    text::owned("managed worktree state does not match this project/session"),
                ),
            )
        }
    }

    /// Checks that a state belongs to a session of this project, as it runs now.
    pub fn verify_identity(&self, state: &ManagedState, project: ProjectId, session: SessionId) -> (r:
        model::Result<()>)
        ensures
            match identity_complaint(self@, state@, project, session) {
                None => r is Ok,
                Some(m) => r is Err && r->Err_0@ == model::ErrorView::Workdir(m),
            },
    {
        if let Err(e) = self.verify_persisted_identity(state, session) {
            return Err(e);
        }
        if state.project_id != project {
            return Err(
                Error::Workdir(text::owned("managed worktree belongs to another runtime project")),
            );
        }
        Ok(())
    }

    /// Checks the state on which an operation of a session is to work.
    pub fn with_state(&self, state: Option<&ManagedState>, project: ProjectId, session: SessionId) -> (r:
        model::Result<()>)
        ensures
            match state {
                None => r is Err && r->Err_0@ == model::ErrorView::Workdir(
                    "session has no managed Git worktree"@,
                ),
                Some(s) => match identity_complaint(self@, s@, project, session) {
                    None => r is Ok,
                    Some(m) => r is Err && r->Err_0@ == model::ErrorView::Workdir(m),
                },
            },
    {
        match state {
            None => Err(Error::Workdir(text::owned("session has no managed Git worktree"))),
            Some(s) => self.verify_identity(s, project, session),
        }
    }

    /// The state of a session whose worktree is still to be made.
    pub fn draft(&self, project: ProjectId, session: SessionId) -> (r: ManagedState)
        ensures
            r@ == (ManagedView {
                project_id: project,
                session_id: session,
                source_project: self@.source_project,
                repository: self@.repository,
                common_dir: self@.common_dir,
                path: session_path(self@, session),
                state_file: state_file(self@, session),
                base_head: Seq::empty(),
                expected_head: Seq::empty(),
                checkpoints: Seq::empty(),
                pending: None,
            }),
    {
        let r = ManagedState {
            project_id: project,
            session_id: session,
            source_project: text::owned(self.source_project.as_str()),
            repository: text::owned(self.repository.as_str()),
            common_dir: text::owned(self.common_dir.as_str()),
            path: self.session_path(session),
            state_file: self.state_file(session),
            base_head: String::new(),
            expected_head: String::new(),
            checkpoints: Vec::new(),
            pending: None,
        };
        proof {
            assert(r@.checkpoints =~= Seq::empty());
        }
        r
    }

    /// Where the project is in the worktree of a session.
    pub fn root(&self, state: &ManagedState) -> (r: String)
        ensures
            r@ == paths::joined(state@.path, self@.project_relative),
    {
        paths::join(state.path.as_str(), self.project_relative.as_str())
    }
}

/// What the plugin registers, in this order.
pub open spec fn registered() -> Seq<RegistrationView> {
    seq![
        (RegistrationKind::WorkdirLayer, LAYER_ID@, -100int),
        (RegistrationKind::BeforeUserMessage, USER_HOOK_ID@, 100int),
        (RegistrationKind::BeforeToolExecution, BEFORE_TOOL_HOOK_ID@, -100int),
        (RegistrationKind::AfterToolExecution, AFTER_TOOL_HOOK_ID@, -100int),
        (RegistrationKind::Command, APPLY_COMMAND_ID@, 0int),
        (RegistrationKind::Command, DISCARD_COMMAND_ID@, 0int),
        (RegistrationKind::Command, REVERT_COMMAND_ID@, 0int),
    ]
}

impl WorktreeService {
    /// What the plugin registers, in this order.
    pub fn registrations(&self) -> (r: Vec<Registration>)
        ensures
            registration::registration_views(r@) == registered(),
    {
        let mut list: Vec<Registration> = Vec::new();
        proof {
            assert(registration::registration_views(list@) =~= Seq::empty());
        }
        registration::register(&mut list, RegistrationKind::WorkdirLayer, LAYER_ID, -100);
        registration::register(&mut list, RegistrationKind::BeforeUserMessage, USER_HOOK_ID, 100);
        registration::register(&mut list, RegistrationKind::BeforeToolExecution, BEFORE_TOOL_HOOK_ID, -100);
        registration::register(&mut list, RegistrationKind::AfterToolExecution, AFTER_TOOL_HOOK_ID, -100);
        registration::register(&mut list, RegistrationKind::Command, APPLY_COMMAND_ID, 0);
        registration::register(&mut list, RegistrationKind::Command, DISCARD_COMMAND_ID, 0);
        registration::register(&mut list, RegistrationKind::Command, REVERT_COMMAND_ID, 0);
        proof {
            assert(registration::registration_views(list@) =~= registered());
        }
        list
    }
}

/// What Git prints counts only where Git succeeded, without the blanks around it. A
/// managed worktree is that of one project and one session.
pub proof fn law_only_success_is_read(
    action: Seq<char>,
    output: GitOutputView,
    service: ServiceView,
    state: ManagedView,
    project: ProjectId,
    session: SessionId,
)
    ensures
        output.success ==> printed(action, Ok(output)) == Ok::<Seq<u8>, Seq<char>>(output.stdout),
        !output.success ==> printed(action, Ok(output)) is Err,
        output.success && vstd::utf8::valid_utf8(output.stdout) ==> printed_text(Ok(output)) == Ok::<
            Seq<char>,
            Seq<char>,
        >(text::trimmed(vstd::utf8::decode_utf8(output.stdout))),
        printed(action, Err(action)) is Err,
        identity_complaint(service, state, project, session) is None ==> {
            &&& state.session_id == session
            &&& state.project_id == project
            &&& paths::is_same(state.path, session_path(service, session))
            &&& paths::is_same(state.repository, service.repository)
            &&& paths::is_same(state.source_project, service.source_project)
            &&& paths::is_same(state.common_dir, service.common_dir)
        },
{
}

} // verus!
