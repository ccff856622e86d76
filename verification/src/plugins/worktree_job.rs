//! The operations on the worktree of a session, step by step.
use crate::history;
use crate::history::HistoryEdit;
use crate::ids;
use crate::ids::{MessageId, ProjectId};
use crate::model;
use crate::model::Error;
use crate::paths;
use crate::plugins::workdir_gitworktree as worktree;
use crate::plugins::workdir_gitworktree::{
    ensure_success, find_checkpoint, git_stdout, set_checkpoint, GitReply, ManagedState,
    PendingTool, WorktreeService,
};
use crate::text;
use vstd::prelude::*;

verus! {

/// A tool call whose changes are to be committed.
pub struct ToolCall {
    pub call_id: String,
    pub name: String,
    pub turn: String,
    pub assistant: MessageId,
}

/// An operation on the worktree of a session.
pub enum Op {
    /// Use the worktree again that this process opened before.
    Reopen,
    /// Use the worktree that an earlier process made.
    Restore(ProjectId),
    /// Make the worktree.
    Create,
    /// Remember the head before a message.
    Checkpoint(MessageId),
    /// Note that a tool call begins.
    BeforeTool(String),
    /// Commit what a tool call changed.
    AfterTool(ToolCall),
    /// Put the changes into the source, and remove the worktree.
    Apply,
    /// Remove the worktree.
    Discard,
    /// Go back to the head before a message.
    Revert(MessageId),
}

/// How the worktree of a session is opened.
#[derive(Clone, Copy, Debug, PartialEq, Eq, Structural)]
pub enum Opening {
    /// This process opened it before.
    Reopen,
    /// An earlier process made it and kept its state.
    Restore,
    /// It has to be made.
    Create,
}

/// Decides how the worktree of a session is opened: `known` says whether this process
/// opened it before, `kept` whether there is a file with its state.
pub fn opening(known: bool, kept: bool) -> (r: Opening)
    ensures
        r == (if known {
            Opening::Reopen
        } else if kept {
            Opening::Restore
        } else {
            Opening::Create
        }),
{
    if known {
        Opening::Reopen
    } else if kept {
        Opening::Restore
    } else {
        Opening::Create
    }
}

/// One step of an operation.
#[derive(Clone, Copy, Debug, PartialEq, Eq, Structural)]
pub enum Step {
    // Is the worktree the one that is expected?
    PathExists,
    TopLevel,
    ResolveTop,
    CommonDir,
    ResolveCommon,
    // Has nothing happened to it that was not recorded?
    NoPending,
    HeadExpected,
    WorktreeClean,
    // Opening.
    AdoptProject,
    PathFree,
    BaseHead,
    MakeParent,
    AddWorktree,
    ResolveNew,
    SaveNew,
    RootExists,
    // Checkpoints and tool calls.
    MarkCheckpoint,
    MarkPending,
    MatchPending,
    HeadUnchanged,
    NoConflicts,
    StageChanges,
    CommitTool,
    RecordHead,
    ClearPending,
    // Applying.
    SourceHead,
    SourceClean,
    Tree,
    Squash,
    FastForward,
    // Removing.
    ResolveRoot,
    ResolvePath,
    RemoveWorktree,
    ForgetState,
    // Going back.
    FindCheckpoint,
    RemoveUntracked,
    RestoreTree,
    CommitRestored,
    Save,
}

/// The steps that show that the worktree is the one that is expected.
pub open spec fn verify() -> Seq<Step> {
    seq![Step::PathExists, Step::TopLevel, Step::ResolveTop, Step::CommonDir, Step::ResolveCommon]
}

/// The steps that show that nothing happened to it that was not recorded.
pub open spec fn clean() -> Seq<Step> {
    seq![Step::NoPending, Step::HeadExpected, Step::WorktreeClean]
}

/// The steps that remove the worktree.
pub open spec fn removal() -> Seq<Step> {
    seq![Step::ResolveRoot, Step::ResolvePath] + verify() + seq![
        Step::RemoveWorktree,
        Step::ForgetState,
    ]
}

/// The steps of an operation.
pub open spec fn script(op: Op) -> Seq<Step> {
    match op {
        Op::Reopen => verify(),
        Op::Restore(_) => verify() + seq![Step::AdoptProject, Step::Save, Step::RootExists],
        Op::Create => seq![
            Step::PathFree,
            Step::BaseHead,
            Step::MakeParent,
            Step::AddWorktree,
            Step::ResolveNew,
            Step::SaveNew,
            Step::RootExists,
        ],
        Op::Checkpoint(_) => verify() + clean() + seq![Step::MarkCheckpoint, Step::Save],
        Op::BeforeTool(_) => verify() + clean() + seq![Step::MarkPending, Step::Save],
        Op::AfterTool(_) => verify() + seq![
            Step::MatchPending,
            Step::HeadUnchanged,
            Step::NoConflicts,
            Step::StageChanges,
            Step::CommitTool,
            Step::RecordHead,
            Step::ClearPending,
            Step::Save,
        ],
        Op::Apply => verify() + clean() + seq![
            Step::SourceHead,
            Step::SourceClean,
            Step::Tree,
            Step::Squash,
            Step::FastForward,
        ] + removal(),
        Op::Discard => verify() + removal(),
        Op::Revert(_) => verify() + clean() + seq![
            Step::FindCheckpoint,
            Step::RemoveUntracked,
            Step::RestoreTree,
            Step::CommitRestored,
            Step::RecordHead,
            Step::Save,
        ],
    }
}

fn push_verify(list: &mut Vec<Step>)
    ensures
        final(list)@ == old(list)@ + verify(),
{
    list.push(Step::PathExists);
    list.push(Step::TopLevel);
    list.push(Step::ResolveTop);
    list.push(Step::CommonDir);
    list.push(Step::ResolveCommon);
    proof {
        assert(list@ =~= old(list)@ + verify());
    }
}

fn push_clean(list: &mut Vec<Step>)
    ensures
        final(list)@ == old(list)@ + clean(),
{
    list.push(Step::NoPending);
    list.push(Step::HeadExpected);
    list.push(Step::WorktreeClean);
    proof {
        assert(list@ =~= old(list)@ + clean());
    }
}

fn push_removal(list: &mut Vec<Step>)
    ensures
        final(list)@ == old(list)@ + removal(),
{
    list.push(Step::ResolveRoot);
    list.push(Step::ResolvePath);
    push_verify(list);
    list.push(Step::RemoveWorktree);
    list.push(Step::ForgetState);
    proof {
        assert(list@ =~= old(list)@ + removal());
    }
}

fn steps(op: &Op) -> (r: Vec<Step>)
    ensures
        r@ == script(*op),
{
    let mut list: Vec<Step> = Vec::new();
    if !matches!(op, Op::Create) {
        push_verify(&mut list);
    }
    match op {
        Op::Reopen => {},
        Op::Restore(_) => {
            list.push(Step::AdoptProject);
            list.push(Step::Save);
            list.push(Step::RootExists);
        },
        Op::Create => {
            list.push(Step::PathFree);
            list.push(Step::BaseHead);
            list.push(Step::MakeParent);
            list.push(Step::AddWorktree);
            list.push(Step::ResolveNew);
            list.push(Step::SaveNew);
            list.push(Step::RootExists);
        },
        Op::Checkpoint(_) => {
            push_clean(&mut list);
            list.push(Step::MarkCheckpoint);
            list.push(Step::Save);
        },
        Op::BeforeTool(_) => {
            push_clean(&mut list);
            list.push(Step::MarkPending);
            list.push(Step::Save);
        },
        Op::AfterTool(_) => {
            list.push(Step::MatchPending);
            list.push(Step::HeadUnchanged);
            list.push(Step::NoConflicts);
            list.push(Step::StageChanges);
            list.push(Step::CommitTool);
            list.push(Step::RecordHead);
            list.push(Step::ClearPending);
            list.push(Step::Save);
        },
        Op::Apply => {
            push_clean(&mut list);
            list.push(Step::SourceHead);
            list.push(Step::SourceClean);
            list.push(Step::Tree);
            list.push(Step::Squash);
            list.push(Step::FastForward);
            push_removal(&mut list);
        },
        Op::Discard => push_removal(&mut list),
        Op::Revert(_) => {
            push_clean(&mut list);
            list.push(Step::FindCheckpoint);
            list.push(Step::RemoveUntracked);
            list.push(Step::RestoreTree);
            list.push(Step::CommitRestored);
            list.push(Step::RecordHead);
            list.push(Step::Save);
        },
    }
    proof {
        assert(list@ =~= script(*op));
    }
    list
}

// ---------------------------------------------------------------------------
// Questions and replies
// ---------------------------------------------------------------------------

/// What a step asks.
#[derive(Debug, PartialEq, Eq)]
pub enum Question {
    /// Nothing: the step decides by itself.
    Nothing,
    IsDirectory(String),
    Exists(String),
    /// To run Git with these arguments in this directory.
    Git(String, Vec<String>),
    /// To resolve a path.
    Resolve(String),
    /// To make a directory and what it is in.
    MakeDirectory(String),
    /// To write the state down.
    Save,
    /// To forget the state and remove the file in which it is kept.
    RemoveState(String),
}

/// What comes back for a question.
pub enum Reply {
    Nothing,
    /// Whether something is there.
    Found(bool),
    Git(GitReply),
    /// The resolved path, or why there is none.
    Path(core::result::Result<String, String>),
    /// Whether it was done, or why not.
    Done(core::result::Result<(), String>),
    Saved(Saved),
}

/// How writing the state down ended.
pub enum Saved {
    Saved,
    /// It could not be encoded.
    NotEncoded(String),
    /// The new file could not be written.
    NotWritten(String),
    /// The new file could not replace the old one.
    NotInstalled(String),
}

pub ghost enum QuestionView {
    Nothing,
    IsDirectory(Seq<char>),
    Exists(Seq<char>),
    Git(Seq<char>, Seq<Seq<char>>),
    Resolve(Seq<char>),
    MakeDirectory(Seq<char>),
    Save,
    RemoveState(Seq<char>),
}

impl View for Question {
    type V = QuestionView;

    open spec fn view(&self) -> QuestionView {
        match *self {
            Question::Nothing => QuestionView::Nothing,
            Question::IsDirectory(p) => QuestionView::IsDirectory(p@),
            Question::Exists(p) => QuestionView::Exists(p@),
            Question::Git(cwd, args) => QuestionView::Git(cwd@, text::texts(args@)),
            Question::Resolve(p) => QuestionView::Resolve(p@),
            Question::MakeDirectory(p) => QuestionView::MakeDirectory(p@),
            Question::Save => QuestionView::Save,
            Question::RemoveState(p) => QuestionView::RemoveState(p@),
        }
    }
}

/// Whether a reply is one to a question.
pub open spec fn answers(question: QuestionView, reply: Reply) -> bool {
    match question {
        QuestionView::Nothing => reply is Nothing,
        QuestionView::IsDirectory(_) => reply is Found,
        QuestionView::Exists(_) => reply is Found,
        QuestionView::Git(_, _) => reply is Git,
        QuestionView::Resolve(_) => reply is Path,
        QuestionView::MakeDirectory(_) => reply is Done,
        QuestionView::Save => reply is Saved,
        QuestionView::RemoveState(_) => reply is Done,
    }
}

/// What the steps of an operation leave for later ones.
pub struct Memo {
    /// What Git printed last.
    pub text: String,
    /// The top of the worktree.
    pub top: String,
    /// The directory of all worktrees.
    pub root: String,
    /// The path that is to be removed.
    pub path: String,
    pub tree: String,
    pub commit: String,
    pub checkpoint: String,
}

pub ghost struct MemoView {
    pub text: Seq<char>,
    pub top: Seq<char>,
    pub root: Seq<char>,
    pub path: Seq<char>,
    pub tree: Seq<char>,
    pub commit: Seq<char>,
    pub checkpoint: Seq<char>,
}

impl View for Memo {
    type V = MemoView;

    open spec fn view(&self) -> MemoView {
        MemoView {
            text: self.text@,
            top: self.top@,
            root: self.root@,
            path: self.path@,
            tree: self.tree@,
            commit: self.commit@,
            checkpoint: self.checkpoint@,
        }
    }
}

/// The message of the commit for a tool call.
pub open spec fn tool_message(session: Seq<char>, call: ToolCall) -> Seq<char> {
    "Airicode tool: "@ + call.name@ + "\n\nAiricode-Session: "@ + session + "\nAiricode-Turn: "@
        + call.turn@ + "\nAiricode-Assistant-Message: "@ + ids::uuid_spelling(call.assistant.0)
        + "\nAiricode-Tool-Call: "@ + call.call_id@
}

/// The arguments that show the head.
pub open spec fn head_args() -> Seq<Seq<char>> {
    seq!["rev-parse"@, "HEAD"@]
}

/// The arguments that show what has changed.
pub open spec fn status_args() -> Seq<Seq<char>> {
    seq!["status"@, "--porcelain=v1"@, "--untracked-files=normal"@]
}

/// The arguments that commit with a message.
pub open spec fn commit_args(message: Seq<char>) -> Seq<Seq<char>> {
    seq!["commit"@, "--allow-empty"@, "--no-verify"@, "-m"@, message]
}

pub open spec fn or_empty(path: Option<Seq<char>>) -> Seq<char> {
    match path {
        Some(p) => p,
        None => Seq::empty(),
    }
}

/// What a step asks.
pub open spec fn asked(
    service: worktree::ServiceView,
    op: Op,
    step: Step,
    memo: MemoView,
    state: worktree::ManagedView,
) -> QuestionView {
    match step {
        Step::PathExists => QuestionView::IsDirectory(state.path),
        Step::TopLevel => QuestionView::Git(state.path, seq!["rev-parse"@, "--show-toplevel"@]),
        Step::ResolveTop => QuestionView::Resolve(memo.text),
        Step::CommonDir => QuestionView::Git(state.path, seq!["rev-parse"@, "--git-common-dir"@]),
        Step::ResolveCommon => QuestionView::Resolve(
            if paths::is_absolute(memo.text) {
                memo.text
            } else {
                paths::joined(state.path, memo.text)
            },
        ),
        Step::HeadExpected => QuestionView::Git(state.path, head_args()),
        Step::WorktreeClean => QuestionView::Git(state.path, status_args()),
        Step::PathFree => QuestionView::Exists(state.path),
        Step::BaseHead => QuestionView::Git(service.repository, head_args()),
        Step::MakeParent => QuestionView::MakeDirectory(or_empty(paths::parent_of(state.path))),
        Step::AddWorktree => QuestionView::Git(
            service.repository,
            seq!["worktree"@, "add"@, "--detach"@, state.path, state.base_head],
        ),
        Step::ResolveNew => QuestionView::Resolve(state.path),
        Step::SaveNew => QuestionView::Save,
        Step::RootExists => QuestionView::IsDirectory(
            paths::joined(state.path, service.project_relative),
        ),
        Step::HeadUnchanged => QuestionView::Git(state.path, head_args()),
        Step::NoConflicts => QuestionView::Git(
            state.path,
            seq!["diff"@, "--name-only"@, "--diff-filter=U"@],
        ),
        Step::StageChanges => QuestionView::Git(state.path, seq!["add"@, "-A"@]),
        Step::CommitTool => QuestionView::Git(
            state.path,
            commit_args(
                match op {
                    Op::AfterTool(call) => tool_message(
                        ids::uuid_spelling(state.session_id.0),
                        call,
                    ),
                    _ => Seq::empty(),
                },
            ),
        ),
        Step::RecordHead => QuestionView::Git(state.path, head_args()),
        Step::SourceHead => QuestionView::Git(service.repository, head_args()),
        Step::SourceClean => QuestionView::Git(service.repository, status_args()),
        Step::Tree => QuestionView::Git(state.path, seq!["rev-parse"@, "HEAD^{tree}"@]),
        Step::Squash => QuestionView::Git(
            service.repository,
            seq![
                "commit-tree"@,
                memo.tree,
                "-p"@,
                state.base_head,
                "-m"@,
                "Apply Airicode session "@ + ids::uuid_spelling(state.session_id.0),
            ],
        ),
        Step::FastForward => QuestionView::Git(
            service.repository,
            seq!["merge"@, "--ff-only"@, "--no-edit"@, memo.commit],
        ),
        Step::ResolveRoot => QuestionView::Resolve(service.managed_root),
        Step::ResolvePath => QuestionView::Resolve(state.path),
        Step::RemoveWorktree => QuestionView::Git(
            service.repository,
            seq!["worktree"@, "remove"@, "--force"@, memo.path],
        ),
        Step::ForgetState => QuestionView::RemoveState(state.state_file),
        Step::RemoveUntracked => QuestionView::Git(state.path, seq!["clean"@, "-fd"@]),
        Step::RestoreTree => QuestionView::Git(
            state.path,
            seq![
                "restore"@,
                "--source"@,
                memo.checkpoint,
                "--staged"@,
                "--worktree"@,
                "--"@,
                "."@,
            ],
        ),
        Step::CommitRestored => QuestionView::Git(
            state.path,
            commit_args(
                match op {
                    Op::Revert(id) => "Revert Airicode worktree to message "@ + ids::uuid_spelling(
                        id.0,
                    ),
                    _ => Seq::empty(),
                },
            ),
        ),
        Step::Save => QuestionView::Save,
        Step::NoPending => QuestionView::Nothing,
        Step::AdoptProject => QuestionView::Nothing,
        Step::MarkCheckpoint => QuestionView::Nothing,
        Step::MarkPending => QuestionView::Nothing,
        Step::MatchPending => QuestionView::Nothing,
        Step::ClearPending => QuestionView::Nothing,
        Step::FindCheckpoint => QuestionView::Nothing,
    }
}


/// What is wrong where the state was not written down.
pub open spec fn save_complaint(file: Seq<char>, saved: Saved) -> Option<Seq<char>> {
    match saved {
        Saved::Saved => None,
        Saved::NotEncoded(m) => Some("could not encode worktree state: "@ + m@),
        Saved::NotWritten(m) => Some("could not write "@ + file + ".tmp"@ + ": "@ + m@),
        Saved::NotInstalled(m) => Some("could not install state "@ + file + ": "@ + m@),
    }
}

/// What a step makes of its reply: what is kept for later steps and the state, or
/// why the operation ends here.
pub open spec fn settled(
    service: worktree::ServiceView,
    op: Op,
    step: Step,
    memo: MemoView,
    state: worktree::ManagedView,
    reply: Reply,
) -> Result<(MemoView, worktree::ManagedView), Seq<char>> {
    let same = Ok::<(MemoView, worktree::ManagedView), Seq<char>>((memo, state));
    let git = worktree::git_view(reply->Git_0);
    match step {
        Step::PathExists => if reply->Found_0 {
            same
        } else {
            Err("managed worktree is missing: "@ + state.path)
        },
        Step::TopLevel => match worktree::printed_text(git) {
            Ok(t) => Ok((MemoView { text: t, ..memo }, state)),
            Err(m) => Err(m),
        },
        Step::ResolveTop => match reply->Path_0 {
            Ok(p) => Ok((MemoView { top: p@, ..memo }, state)),
            Err(m) => Err("could not resolve worktree root: "@ + m@),
        },
        Step::CommonDir => match worktree::printed_text(git) {
            Ok(t) => Ok((MemoView { text: t, ..memo }, state)),
            Err(m) => Err(m),
        },
        Step::ResolveCommon => match reply->Path_0 {
            Ok(p) => if paths::is_same(memo.top, state.path) && paths::is_same(
                p@,
                service.common_dir,
            ) {
                same
            } else {
                Err("managed path is not the expected repository worktree"@)
            },
            Err(m) => Err("could not resolve Git metadata: "@ + m@),
        },
        Step::NoPending => match state.pending {
            Some(p) => Err(
                "worktree has unresolved tool call "@ + p.call_id
                    + "; discard or recover it explicitly"@,
            ),
            None => same,
        },
        Step::HeadExpected => match worktree::printed_text(git) {
            Ok(t) => if t == state.expected_head {
                same
            } else {
                Err(
                    "managed worktree HEAD changed unexpectedly (expected "@ + state.expected_head
                        + ", actual "@ + t + ")"@,
                )
            },
            Err(m) => Err(m),
        },
        Step::WorktreeClean => match worktree::printed("inspect Git status"@, git) {
            Ok(out) => if out.len() == 0 {
                same
            } else {
                Err("managed worktree is dirty outside a recorded tool operation"@)
            },
            Err(m) => Err(m),
        },
        Step::AdoptProject => match op {
            Op::Restore(id) => Ok(
                (memo, worktree::ManagedView { project_id: id, ..state }),
            ),
            _ => same,
        },
        Step::PathFree => if reply->Found_0 {
            Err("refusing to use untracked managed worktree path "@ + state.path)
        } else {
            same
        },
        Step::BaseHead => match worktree::printed_text(git) {
            Ok(t) => Ok(
                (memo, worktree::ManagedView { base_head: t, expected_head: t, ..state }),
            ),
            Err(m) => Err(m),
        },
        Step::MakeParent => match reply->Done_0 {
            Ok(()) => same,
            Err(m) => Err(
                "could not create "@ + or_empty(paths::parent_of(state.path)) + ": "@ + m@,
            ),
        },
        Step::AddWorktree => match worktree::printed("create detached Git worktree"@, git) {
            Ok(_) => same,
            Err(m) => Err(m),
        },
        Step::ResolveNew => match reply->Path_0 {
            Ok(p) => Ok((memo, worktree::ManagedView { path: p@, ..state })),
            Err(m) => Err("could not resolve managed worktree: "@ + m@),
        },
        Step::SaveNew => match save_complaint(state.state_file, reply->Saved_0) {
            None => same,
            Some(m) => Err(m),
        },
        Step::Save => match save_complaint(state.state_file, reply->Saved_0) {
            None => same,
            Some(m) => Err(m),
        },
        Step::RootExists => if reply->Found_0 {
            same
        } else {
            Err(
                "project path "@ + paths::joined(state.path, service.project_relative)
                    + " is missing from managed worktree"@,
            )
        },
        Step::MarkCheckpoint => match op {
            Op::Checkpoint(id) => Ok(
                (
                    memo,
                    worktree::ManagedView {
                        checkpoints: worktree::with_checkpoint(
                            state.checkpoints,
                            id,
                            state.expected_head,
                        ),
                        ..state
                    },
                ),
            ),
            _ => same,
        },
        Step::MarkPending => match op {
            Op::BeforeTool(call) => Ok(
                (
                    memo,
                    worktree::ManagedView {
                        pending: Some(
                            worktree::PendingView {
                                call_id: call@,
                                expected_head: state.expected_head,
                            },
                        ),
                        ..state
                    },
                ),
            ),
            _ => same,
        },
        Step::MatchPending => match (state.pending, op) {
            (None, _) => Err("tool operation has no matching pending record"@),
            (Some(p), Op::AfterTool(call)) => if p.call_id == call.call_id@ {
                same
            } else {
                Err("pending tool call "@ + p.call_id + " does not match "@ + call.call_id@)
            },
            _ => same,
        },
        Step::HeadUnchanged => match (worktree::printed_text(git), state.pending) {
            (Err(m), _) => Err(m),
            (Ok(t), Some(p)) => if t == p.expected_head {
                same
            } else {
                Err(
                    "tool changed managed worktree HEAD (expected "@ + p.expected_head
                        + ", actual "@ + t + ")"@,
                )
            },
            (Ok(_), None) => Err("tool operation has no matching pending record"@),
        },
        Step::NoConflicts => match worktree::printed("inspect Git index conflicts"@, git) {
            Ok(out) => if out.len() == 0 {
                same
            } else {
                Err("tool left unresolved Git index entries; worktree is blocked"@)
            },
            Err(m) => Err(m),
        },
        Step::StageChanges => match worktree::printed("stage tool changes"@, git) {
            Ok(_) => same,
            Err(m) => Err(m),
        },
        Step::CommitTool => match worktree::printed("commit tool changes"@, git) {
            Ok(_) => same,
            Err(m) => Err(m),
        },
        Step::RecordHead => match worktree::printed_text(git) {
            Ok(t) => Ok((memo, worktree::ManagedView { expected_head: t, ..state })),
            Err(m) => Err(m),
        },
        Step::ClearPending => Ok((memo, worktree::ManagedView { pending: None, ..state })),
        Step::SourceHead => match worktree::printed_text(git) {
            Ok(t) => if t == state.base_head {
                same
            } else {
                Err("refusing to apply: source HEAD moved since the session began"@)
            },
            Err(m) => Err(m),
        },
        Step::SourceClean => match worktree::printed("inspect Git status"@, git) {
            Ok(out) => if out.len() == 0 {
                same
            } else {
                Err("refusing to apply: source worktree or index is dirty"@)
            },
            Err(m) => Err(m),
        },
        Step::Tree => match worktree::printed_text(git) {
            Ok(t) => Ok((MemoView { tree: t, ..memo }, state)),
            Err(m) => Err(m),
        },
        Step::Squash => match worktree::printed_text(git) {
            Ok(t) => Ok((MemoView { commit: t, ..memo }, state)),
            Err(m) => Err(m),
        },
        Step::FastForward => match worktree::printed("fast-forward source worktree"@, git) {
            Ok(_) => same,
            Err(m) => Err(m),
        },
        Step::ResolveRoot => match reply->Path_0 {
            Ok(p) => Ok((MemoView { root: p@, ..memo }, state)),
            Err(m) => Err("could not resolve managed root: "@ + m@),
        },
        Step::ResolvePath => match reply->Path_0 {
            Ok(p) => if paths::is_same(p@, worktree::session_path(service, state.session_id))
                && paths::is_under(p@, memo.root) {
                Ok((MemoView { path: p@, ..memo }, state))
            } else {
                Err("refusing to remove a path outside the managed session root"@)
            },
            Err(m) => Err("could not resolve managed worktree: "@ + m@),
        },
        Step::RemoveWorktree => match worktree::printed("remove managed Git worktree"@, git) {
            Ok(_) => same,
            Err(m) => Err(m),
        },
        Step::ForgetState => match reply->Done_0 {
            Ok(()) => same,
            Err(m) => Err("could not remove managed state "@ + state.state_file + ": "@ + m@),
        },
        Step::FindCheckpoint => match op {
            Op::Revert(id) => match worktree::checkpoint_of(state.checkpoints, id) {
                Some(h) => Ok((MemoView { checkpoint: h, ..memo }, state)),
                None => Err(
                    "message "@ + ids::uuid_spelling(id.0) + " has no worktree checkpoint"@,
                ),
            },
            _ => same,
        },
        Step::RemoveUntracked => match worktree::printed(
            "remove non-ignored untracked files"@,
            git,
        ) {
            Ok(_) => same,
            Err(m) => Err(m),
        },
        Step::RestoreTree => match worktree::printed("restore checkpoint tree"@, git) {
            Ok(_) => same,
            Err(m) => Err(m),
        },
        Step::CommitRestored => match worktree::printed("commit checkpoint restoration"@, git) {
            Ok(_) => same,
            Err(m) => Err(m),
        },
    }
}

// ---------------------------------------------------------------------------
// Asking and settling
// ---------------------------------------------------------------------------

fn args_of(list: &[&str]) -> (r: Vec<String>)
    ensures
        text::texts(r@) == text::slice_texts(list@),
{
    let mut args = text::no_texts();
    text::push_all(&mut args, list);
    proof {
        assert(text::texts(args@) =~= text::slice_texts(list@));
    }
    args
}

fn ask_git(cwd: &str, list: &[&str]) -> (r: Question)
    ensures
        r@ == QuestionView::Git(cwd@, text::slice_texts(list@)),
{
    Question::Git(text::owned(cwd), args_of(list))
}

fn ask_head(cwd: &str) -> (r: Question)
    ensures
        r@ == QuestionView::Git(cwd@, head_args()),
{
    let r = ask_git(cwd, &["rev-parse", "HEAD"]);
    proof {
        assert(r@->Git_1 =~= head_args());
    }
    r
}

fn ask_status(cwd: &str) -> (r: Question)
    ensures
        r@ == QuestionView::Git(cwd@, status_args()),
{
    let r = ask_git(cwd, &["status", "--porcelain=v1", "--untracked-files=normal"]);
    proof {
        assert(r@->Git_1 =~= status_args());
    }
    r
}

fn ask_commit(cwd: &str, message: &str) -> (r: Question)
    ensures
        r@ == QuestionView::Git(cwd@, commit_args(message@)),
{
    let r = ask_git(cwd, &["commit", "--allow-empty", "--no-verify", "-m", message]);
    proof {
        assert(r@->Git_1 =~= commit_args(message@));
    }
    r
}

fn commit_message(session: ids::SessionId, call: &ToolCall) -> (r: String)
    ensures
        r@ == tool_message(ids::uuid_spelling(session.0), *call),
{
    let first = text::cat4(
        "Airicode tool: ",
        call.name.as_str(),
        "\n\nAiricode-Session: ",
        session.spelled().as_str(),
    );
    let second = text::cat5(
        first.as_str(),
        "\nAiricode-Turn: ",
        call.turn.as_str(),
        "\nAiricode-Assistant-Message: ",
        call.assistant.spelled().as_str(),
    );
    let r = text::cat3(second.as_str(), "\nAiricode-Tool-Call: ", call.call_id.as_str());
    proof {
        assert(r@ =~= tool_message(ids::uuid_spelling(session.0), *call));
    }
    r
}

fn ask(service: &WorktreeService, op: &Op, step: Step, memo: &Memo, state: &ManagedState) -> (r:
    Question)
    ensures
        r@ == asked(service@, *op, step, memo@, state@),
{
    let path = state.path.as_str();
    let repository = service.repository.as_str();
    let r = match step {
        Step::PathExists => Question::IsDirectory(text::owned(path)),
        Step::TopLevel => ask_git(path, &["rev-parse", "--show-toplevel"]),
        Step::ResolveTop => Question::Resolve(text::owned(memo.text.as_str())),
        Step::CommonDir => ask_git(path, &["rev-parse", "--git-common-dir"]),
        Step::ResolveCommon => Question::Resolve(
            if paths::absolute(memo.text.as_str()) {
                text::owned(memo.text.as_str())
            } else {
                paths::join(path, memo.text.as_str())
            },
        ),
        Step::HeadExpected => ask_head(path),
        Step::WorktreeClean => ask_status(path),
        Step::PathFree => Question::Exists(text::owned(path)),
        Step::BaseHead => ask_head(repository),
        Step::MakeParent => Question::MakeDirectory(
            match paths::parent(path) {
                Some(p) => p,
                None => String::new(),
            },
        ),
        Step::AddWorktree => ask_git(
            repository,
            &["worktree", "add", "--detach", path, state.base_head.as_str()],
        ),
        Step::ResolveNew => Question::Resolve(text::owned(path)),
        Step::SaveNew => Question::Save,
        Step::RootExists => Question::IsDirectory(
            paths::join(path, service.project_relative.as_str()),
        ),
        Step::HeadUnchanged => ask_head(path),
        Step::NoConflicts => ask_git(path, &["diff", "--name-only", "--diff-filter=U"]),
        Step::StageChanges => ask_git(path, &["add", "-A"]),
        Step::CommitTool => match op {
            Op::AfterTool(call) => ask_commit(
                path,
                commit_message(state.session_id, call).as_str(),
            ),
            _ => ask_commit(path, String::new().as_str()),
        },
        Step::RecordHead => ask_head(path),
        Step::SourceHead => ask_head(repository),
        Step::SourceClean => ask_status(repository),
        Step::Tree => ask_git(path, &["rev-parse", "HEAD^{tree}"]),
        Step::Squash => {
            let message = text::cat2(
                "Apply Airicode session ",
                state.session_id.spelled().as_str(),
            );
            ask_git(
                repository,
                &[
                    "commit-tree",
                    memo.tree.as_str(),
                    "-p",
                    state.base_head.as_str(),
                    "-m",
                    message.as_str(),
                ],
            )
        },
        Step::FastForward => ask_git(
            repository,
            &["merge", "--ff-only", "--no-edit", memo.commit.as_str()],
        ),
        Step::ResolveRoot => Question::Resolve(text::owned(service.managed_root.as_str())),
        Step::ResolvePath => Question::Resolve(text::owned(path)),
        Step::RemoveWorktree => ask_git(
            repository,
            &["worktree", "remove", "--force", memo.path.as_str()],
        ),
        Step::ForgetState => Question::RemoveState(text::owned(state.state_file.as_str())),
        Step::RemoveUntracked => ask_git(path, &["clean", "-fd"]),
        Step::RestoreTree => ask_git(
            path,
            &[
                "restore",
                "--source",
                memo.checkpoint.as_str(),
                "--staged",
                "--worktree",
                "--",
                ".",
            ],
        ),
        Step::CommitRestored => match op {
            Op::Revert(id) => ask_commit(
                path,
                text::cat2(
                    "Revert Airicode worktree to message ",
                    id.spelled().as_str(),
                ).as_str(),
            ),
            _ => ask_commit(path, String::new().as_str()),
        },
        Step::Save => Question::Save,
        Step::NoPending => Question::Nothing,
        Step::AdoptProject => Question::Nothing,
        Step::MarkCheckpoint => Question::Nothing,
        Step::MarkPending => Question::Nothing,
        Step::MatchPending => Question::Nothing,
        Step::ClearPending => Question::Nothing,
        Step::FindCheckpoint => Question::Nothing,
    };
    proof {
        let wanted = asked(service@, *op, step, memo@, state@);
        if let QuestionView::Git(cwd, args) = wanted {
            assert(r@->Git_1 =~= args);
        }
    }
    r
}

fn git_of(reply: Reply) -> (r: GitReply)
    requires
        reply is Git,
    ensures
        r == reply->Git_0,
{
    match reply {
        Reply::Git(g) => g,
        _ => Err(String::new()),
    }
}

fn path_of(reply: Reply) -> (r: core::result::Result<String, String>)
    requires
        reply is Path,
    ensures
        r == reply->Path_0,
{
    match reply {
        Reply::Path(p) => p,
        _ => Err(String::new()),
    }
}

fn found_of(reply: Reply) -> (r: bool)
    requires
        reply is Found,
    ensures
        r == reply->Found_0,
{
    match reply {
        Reply::Found(b) => b,
        _ => false,
    }
}

fn done_of(reply: Reply) -> (r: core::result::Result<(), String>)
    requires
        reply is Done,
    ensures
        r == reply->Done_0,
{
    match reply {
        Reply::Done(d) => d,
        _ => Err(String::new()),
    }
}

fn check_saved(file: &str, reply: Reply) -> (r: core::result::Result<(), String>)
    requires
        reply is Saved,
    ensures
        match save_complaint(file@, reply->Saved_0) {
            None => r is Ok,
            Some(m) => r is Err && r->Err_0@ == m,
        },
{
    match reply {
        Reply::Saved(Saved::Saved) => Ok(()),
        Reply::Saved(Saved::NotEncoded(m)) => Err(
            text::cat2("could not encode worktree state: ", m.as_str()),
        ),
        Reply::Saved(Saved::NotWritten(m)) => Err(
            text::cat5("could not write ", file, ".tmp", ": ", m.as_str()),
        ),
        Reply::Saved(Saved::NotInstalled(m)) => Err(
            text::cat4("could not install state ", file, ": ", m.as_str()),
        ),
        _ => Ok(()),
    }
}

fn check_done(action: &str, reply: Reply) -> (r: core::result::Result<(), String>)
    requires
        reply is Git,
    ensures
        match worktree::printed(action@, worktree::git_view(reply->Git_0)) {
            Ok(_) => r is Ok,
            Err(m) => r is Err && r->Err_0@ == m,
        },
{
    match ensure_success(action, git_of(reply)) {
        Ok(_) => Ok(()),
        Err(m) => Err(m),
    }
}

fn check_empty(action: &str, complaint: &str, reply: Reply) -> (r: core::result::Result<(), String>)
    requires
        reply is Git,
    ensures
        match worktree::printed(action@, worktree::git_view(reply->Git_0)) {
            Ok(out) => if out.len() == 0 {
                r is Ok
            } else {
                r is Err && r->Err_0@ == complaint@
            },
            Err(m) => r is Err && r->Err_0@ == m,
        },
{
    match ensure_success(action, git_of(reply)) {
        Ok(out) => if out.len() == 0 {
            Ok(())
        } else {
            Err(text::owned(complaint))
        },
        Err(m) => Err(m),
    }
}

fn settle(
    service: &WorktreeService,
    op: &Op,
    step: Step,
    memo: &mut Memo,
    state: &mut ManagedState,
    reply: Reply,
) -> (r: core::result::Result<(), String>)
    requires
        answers(asked(service@, *op, step, old(memo)@, old(state)@), reply),
    ensures
        match settled(service@, *op, step, old(memo)@, old(state)@, reply) {
            Ok(after) => r is Ok && final(memo)@ == after.0 && final(state)@ == after.1,
            Err(m) => {
                &&& r is Err
                &&& r->Err_0@ == m
                &&& final(memo)@ == old(memo)@
                &&& final(state)@ == old(state)@
            },
        },
{
    match step {
        Step::PathExists => {
            if !found_of(reply) {
                return Err(text::cat2("managed worktree is missing: ", state.path.as_str()));
            }
        },
        Step::TopLevel | Step::CommonDir => match git_stdout(git_of(reply)) {
            Ok(t) => {
                memo.text = t;
            },
            Err(m) => return Err(m),
        },
        Step::ResolveTop => match path_of(reply) {
            Ok(p) => {
                memo.top = p;
            },
            Err(m) => return Err(text::cat2("could not resolve worktree root: ", m.as_str())),
        },
        Step::ResolveCommon => match path_of(reply) {
            Ok(p) => {
                if !(paths::same_path(memo.top.as_str(), state.path.as_str()) && paths::same_path(
                    p.as_str(),
                    service.common_dir.as_str(),
                )) {
                    return Err(
                        text::owned("managed path is not the expected repository worktree"),
                    );
                }
            },
            Err(m) => return Err(text::cat2("could not resolve Git metadata: ", m.as_str())),
        },
        Step::NoPending => {
            if let Some(p) = &state.pending {
                return Err(
                    text::cat3(
                        "worktree has unresolved tool call ",
                        p.call_id.as_str(),
                        "; discard or recover it explicitly",
                    ),
                );
            }
        },
        Step::HeadExpected => match git_stdout(git_of(reply)) {
            Ok(t) => {
                if !text::same_text(t.as_str(), state.expected_head.as_str()) {
                    return Err(
                        text::cat5(
                            "managed worktree HEAD changed unexpectedly (expected ",
                            state.expected_head.as_str(),
                            ", actual ",
                            t.as_str(),
                            ")",
                        ),
                    );
                }
            },
            Err(m) => return Err(m),
        },
        Step::WorktreeClean => {
            return check_empty(
                "inspect Git status",
                "managed worktree is dirty outside a recorded tool operation",
                reply,
            );
        },
        Step::AdoptProject => {
            if let Op::Restore(id) = op {
                state.project_id = *id;
            }
        },
        Step::PathFree => {
            if found_of(reply) {
                return Err(
                    text::cat2(
                        "refusing to use untracked managed worktree path ",
                        state.path.as_str(),
                    ),
                );
            }
        },
        Step::BaseHead => match git_stdout(git_of(reply)) {
            Ok(t) => {
                state.expected_head = text::owned(t.as_str());
                state.base_head = t;
            },
            Err(m) => return Err(m),
        },
        Step::MakeParent => match done_of(reply) {
            Ok(()) => {},
            Err(m) => {
                let parent = match paths::parent(state.path.as_str()) {
                    Some(p) => p,
                    None => String::new(),
                };
                return Err(text::cat4("could not create ", parent.as_str(), ": ", m.as_str()));
            },
        },
        Step::AddWorktree => return check_done("create detached Git worktree", reply),
        Step::ResolveNew => match path_of(reply) {
            Ok(p) => {
                state.path = p;
            },
            Err(m) => return Err(text::cat2("could not resolve managed worktree: ", m.as_str())),
        },
        Step::SaveNew | Step::Save => return check_saved(state.state_file.as_str(), reply),
        Step::RootExists => {
            if !found_of(reply) {
                return Err(
                    text::cat3(
                        "project path ",
                        service.root(state).as_str(),
                        " is missing from managed worktree",
                    ),
                );
            }
        },
        Step::MarkCheckpoint => {
            if let Op::Checkpoint(id) = op {
                set_checkpoint(&mut state.checkpoints, *id, state.expected_head.as_str());
            }
        },
        Step::MarkPending => {
            if let Op::BeforeTool(call) = op {
                state.pending = Some(
                    PendingTool {
                        call_id: text::owned(call.as_str()),
                        expected_head: text::owned(state.expected_head.as_str()),
                    },
                );
            }
        },
        Step::MatchPending => match &state.pending {
            None => return Err(text::owned("tool operation has no matching pending record")),
            Some(p) => {
                if let Op::AfterTool(call) = op {
                    if !text::same_text(p.call_id.as_str(), call.call_id.as_str()) {
                        return Err(
                            text::cat4(
                                "pending tool call ",
                                p.call_id.as_str(),
                                " does not match ",
                                call.call_id.as_str(),
                            ),
                        );
                    }
                }
            },
        },
        Step::HeadUnchanged => {
            let actual = match git_stdout(git_of(reply)) {
                Ok(t) => t,
                Err(m) => return Err(m),
            };
            match &state.pending {
                None => return Err(text::owned("tool operation has no matching pending record")),
                Some(p) => {
                    if !text::same_text(actual.as_str(), p.expected_head.as_str()) {
                        return Err(
                            text::cat5(
                                "tool changed managed worktree HEAD (expected ",
                                p.expected_head.as_str(),
                                ", actual ",
                                actual.as_str(),
                                ")",
                            ),
                        );
                    }
                },
            }
        },
        Step::NoConflicts => {
            return check_empty(
                "inspect Git index conflicts",
                "tool left unresolved Git index entries; worktree is blocked",
                reply,
            );
        },
        Step::StageChanges => return check_done("stage tool changes", reply),
        Step::CommitTool => return check_done("commit tool changes", reply),
        Step::RecordHead => match git_stdout(git_of(reply)) {
            Ok(t) => {
                state.expected_head = t;
            },
            Err(m) => return Err(m),
        },
        Step::ClearPending => {
            state.pending = None;
        },
        Step::SourceHead => match git_stdout(git_of(reply)) {
            Ok(t) => {
                if !text::same_text(t.as_str(), state.base_head.as_str()) {
                    return Err(
                        text::owned(
                            "refusing to apply: source HEAD moved since the session began",
                        ),
                    );
                }
            },
            Err(m) => return Err(m),
        },
        Step::SourceClean => {
            return check_empty(
                "inspect Git status",
                "refusing to apply: source worktree or index is dirty",
                reply,
            );
        },
        Step::Tree => match git_stdout(git_of(reply)) {
            Ok(t) => {
                memo.tree = t;
            },
            Err(m) => return Err(m),
        },
        Step::Squash => match git_stdout(git_of(reply)) {
            Ok(t) => {
                memo.commit = t;
            },
            Err(m) => return Err(m),
        },
        Step::FastForward => return check_done("fast-forward source worktree", reply),
        Step::ResolveRoot => match path_of(reply) {
            Ok(p) => {
                memo.root = p;
            },
            Err(m) => return Err(text::cat2("could not resolve managed root: ", m.as_str())),
        },
        Step::ResolvePath => match path_of(reply) {
            Ok(p) => {
                let expected = service.session_path(state.session_id);
                if !(paths::same_path(p.as_str(), expected.as_str()) && paths::under(
                    p.as_str(),
                    memo.root.as_str(),
                )) {
                    return Err(
                        text::owned("refusing to remove a path outside the managed session root"),
                    );
                }
                memo.path = p;
            },
            Err(m) => return Err(text::cat2("could not resolve managed worktree: ", m.as_str())),
        },
        Step::RemoveWorktree => return check_done("remove managed Git worktree", reply),
        Step::ForgetState => match done_of(reply) {
            Ok(()) => {},
            Err(m) => return Err(
                text::cat4(
                    "could not remove managed state ",
                    state.state_file.as_str(),
                    ": ",
                    m.as_str(),
                ),
            ),
        },
        Step::FindCheckpoint => {
            if let Op::Revert(id) = op {
                match find_checkpoint(&state.checkpoints, *id) {
                    Some(h) => {
                        memo.checkpoint = h;
                    },
                    None => return Err(
                        text::cat3(
                            "message ",
                            id.spelled().as_str(),
                            " has no worktree checkpoint",
                        ),
                    ),
                }
            }
        },
        Step::RemoveUntracked => return check_done("remove non-ignored untracked files", reply),
        Step::RestoreTree => return check_done("restore checkpoint tree", reply),
        Step::CommitRestored => return check_done("commit checkpoint restoration", reply),
    }
    Ok(())
}


// ---------------------------------------------------------------------------
// Running an operation
// ---------------------------------------------------------------------------

/// An operation on its way.
pub struct Job {
    pub op: Op,
    pub steps: Vec<Step>,
    /// How many steps are done.
    pub at: usize,
    pub memo: Memo,
}

impl Job {
    pub open spec fn wf(self) -> bool {
        &&& self.steps@ == script(self.op)
        &&& self.at <= self.steps@.len()
    }

    /// Whether all steps are done.
    pub open spec fn is_done(self) -> bool {
        self.at >= script(self.op).len()
    }

    /// What the next step asks.
    pub open spec fn asks(
        self,
        service: worktree::ServiceView,
        state: worktree::ManagedView,
    ) -> QuestionView {
        asked(service, self.op, script(self.op)[self.at as int], self.memo@, state)
    }

    /// What the next step makes of a reply.
    pub open spec fn gets(
        self,
        service: worktree::ServiceView,
        state: worktree::ManagedView,
        reply: Reply,
    ) -> Result<(MemoView, worktree::ManagedView), Seq<char>> {
        settled(service, self.op, script(self.op)[self.at as int], self.memo@, state, reply)
    }

    /// Starts an operation.
    pub fn begin(op: Op) -> (r: Job)
        ensures
            r.wf(),
            r.op == op,
            r.at == 0,
    {
        let steps = steps(&op);
        Job {
            op,
            steps,
            at: 0,
            memo: Memo {
                text: String::new(),
                top: String::new(),
                root: String::new(),
                path: String::new(),
                tree: String::new(),
                commit: String::new(),
                checkpoint: String::new(),
            },
        }
    }

    /// What the next step asks; nothing once all steps are done.
    pub fn question(&self, service: &WorktreeService, state: &ManagedState) -> (r: Option<Question>)
        requires
            self.wf(),
        ensures
            r is None == self.is_done(),
            r matches Some(q) ==> q@ == self.asks(service@, state@),
    {
        if self.at >= self.steps.len() {
            return None;
        }
        Some(ask(service, &self.op, self.steps[self.at], &self.memo, state))
    }

    /// Takes in the reply to the question of the next step.
    pub fn reply(&mut self, service: &WorktreeService, state: &mut ManagedState, reply: Reply) -> (r:
        model::Result<()>)
        requires
            old(self).wf(),
            !old(self).is_done(),
            answers(old(self).asks(service@, old(state)@), reply),
        ensures
            final(self).wf(),
            final(self).op == old(self).op,
            match old(self).gets(service@, old(state)@, reply) {
                Ok(after) => {
                    &&& r is Ok
                    &&& final(self).at == old(self).at + 1
                    &&& final(self).memo@ == after.0
                    &&& final(state)@ == after.1
                },
                Err(m) => {
                    &&& r is Err
                    &&& r->Err_0@ == model::ErrorView::Workdir(m)
                    &&& final(self).at == old(self).at
                    &&& final(self).memo@ == old(self).memo@
                    &&& final(state)@ == old(state)@
                },
            },
    {
        let step = self.steps[self.at];
        match settle(service, &self.op, step, &mut self.memo, state, reply) {
            Ok(()) => {
                self.at = self.at + 1;
                Ok(())
            },
            Err(m) => Err(Error::Workdir(m)),
        }
    }

    /// What is to be undone where the next step fails: a worktree whose state could
    /// not be written down is removed again.
    pub fn undo(&self, service: &WorktreeService, state: &ManagedState) -> (r: Option<Question>)
        requires
            self.wf(),
        ensures
            r is Some == (!self.is_done() && script(self.op)[self.at as int] == Step::SaveNew),
            r matches Some(q) ==> q@ == QuestionView::Git(
                service@.repository,
                seq!["worktree"@, "remove"@, "--force"@, state@.path],
            ),
    {
        if self.at < self.steps.len() && self.steps[self.at] == Step::SaveNew {
            let q = ask_git(
                service.repository.as_str(),
                &["worktree", "remove", "--force", state.path.as_str()],
            );
            proof {
                assert(q@->Git_1 =~= seq!["worktree"@, "remove"@, "--force"@, state@.path]);
            }
            return Some(q);
        }
        None
    }

    /// What the user is told once all steps are done.
    pub fn outcome(&self, state: &ManagedState) -> (r: String)
        ensures
            r@ == (match self.op {
                Op::Apply => "Applied session as squash commit "@ + self.memo@.commit,
                Op::Discard => "Discarded managed worktree "@ + state@.path,
                Op::Revert(id) => "Restored checkpoint for "@ + ids::uuid_spelling(id.0)
                    + " as audit commit "@ + state@.expected_head,
                _ => Seq::empty(),
            }),
    {
        match &self.op {
            Op::Apply => text::cat2(
                "Applied session as squash commit ",
                self.memo.commit.as_str(),
            ),
            Op::Discard => text::cat2("Discarded managed worktree ", state.path.as_str()),
            Op::Revert(id) => text::cat4(
                "Restored checkpoint for ",
                id.spelled().as_str(),
                " as audit commit ",
                state.expected_head.as_str(),
            ),
            _ => String::new(),
        }
    }
}

// ---------------------------------------------------------------------------
// The conversation after going back
// ---------------------------------------------------------------------------

/// The place of a message in the conversation.
pub fn find_message(list: &[MessageId], id: MessageId) -> (r: model::Result<usize>)
    ensures
        match r {
            Ok(i) => i == history::place_of(list@, id) && i < list@.len() && list@[i as int] == id,
            Err(e) => history::place_of(list@, id) == list@.len() && e@
                == model::ErrorView::MessageNotFound(id),
        },
{
    let i: usize = history::position(list, id);
    if i < list.len() {
        Ok(i)
    } else {
        Err(Error::MessageNotFound(id))
    }
}

/// How the conversation changes when a session goes back to before the message at
/// `index`: that message and all later ones go.
pub fn history_edit(list: &[MessageId], index: usize) -> (r: HistoryEdit)
    requires
        index < list@.len(),
    ensures
        r == (if index == 0 {
            HistoryEdit::RemoveAll(list@[0], list@[list@.len() - 1])
        } else {
            HistoryEdit::TruncateAfter(list@[index - 1])
        }),
{
    if index == 0 {
        HistoryEdit::RemoveAll(list[0], list[list.len() - 1])
    } else {
        HistoryEdit::TruncateAfter(list[index - 1])
    }
}

// ---------------------------------------------------------------------------
// Commands
// ---------------------------------------------------------------------------

#[derive(Clone, Copy, Debug, PartialEq, Eq, Structural)]
pub enum CommandKind {
    Apply,
    Discard,
    Revert,
}

/// A command of the plugin.
pub struct WorktreeCommand {
    pub kind: CommandKind,
}

impl WorktreeCommand {
    pub fn new(kind: CommandKind) -> (r: Self)
        ensures
            r.kind == kind,
    {
        WorktreeCommand { kind }
    }

    pub fn id(&self) -> (r: &'static str)
        ensures
            r@ == (match self.kind {
                CommandKind::Apply => "builtin.git-worktree.apply"@,
                CommandKind::Discard => "builtin.git-worktree.discard"@,
                CommandKind::Revert => "builtin.git-worktree.revert"@,
            }),
    {
        match self.kind {
            CommandKind::Apply => worktree::APPLY_COMMAND_ID,
            CommandKind::Discard => worktree::DISCARD_COMMAND_ID,
            CommandKind::Revert => worktree::REVERT_COMMAND_ID,
        }
    }

    pub fn name(&self) -> (r: &'static str)
        ensures
            r@ == (match self.kind {
                CommandKind::Apply => "apply-worktree"@,
                CommandKind::Discard => "discard-worktree"@,
                CommandKind::Revert => "revert-worktree"@,
            }),
    {
        match self.kind {
            CommandKind::Apply => "apply-worktree",
            CommandKind::Discard => "discard-worktree",
            CommandKind::Revert => "revert-worktree",
        }
    }

    pub fn description(&self) -> (r: &'static str)
        ensures
            r@ == (match self.kind {
                CommandKind::Apply =>
                "Squash and fast-forward this session into the clean source project."@,
                CommandKind::Discard => "Explicitly discard this session's managed worktree."@,
                CommandKind::Revert =>
                "Restore the checkpoint before a user message and truncate later history."@,
            }),
    {
        match self.kind {
            CommandKind::Apply =>
            "Squash and fast-forward this session into the clean source project.",
            CommandKind::Discard => "Explicitly discard this session's managed worktree.",
            CommandKind::Revert =>
            "Restore the checkpoint before a user message and truncate later history.",
        }
    }

    pub fn usage(&self) -> (r: &'static str)
        ensures
            r@ == (match self.kind {
                CommandKind::Apply => "/apply-worktree"@,
                CommandKind::Discard => "/discard-worktree"@,
                CommandKind::Revert => "/revert-worktree <message-id>"@,
            }),
    {
        match self.kind {
            CommandKind::Apply => "/apply-worktree",
            CommandKind::Discard => "/discard-worktree",
            CommandKind::Revert => "/revert-worktree <message-id>",
        }
    }

    /// The operation that an invocation asks for.
    pub fn operation(&self, name: &str, arguments: &str) -> (r: model::Result<Op>)
        ensures
            if self.kind == CommandKind::Revert {
                match ids::parsed_uuid(text::trimmed(arguments@)) {
                    Some(v) => r == Ok::<Op, Error>(Op::Revert(MessageId(v))),
                    None => r is Err && r->Err_0@ == model::ErrorView::Workdir(
                        "usage: /revert-worktree <message-id>"@,
                    ),
                }
            } else if !text::is_blank(arguments@) {
                r is Err && r->Err_0@ == model::ErrorView::Workdir(
                    "/"@ + name@ + " does not accept arguments"@,
                )
            } else if self.kind == CommandKind::Apply {
                r == Ok::<Op, Error>(Op::Apply)
            } else {
                r == Ok::<Op, Error>(Op::Discard)
            },
    {
        if self.kind == CommandKind::Revert {
            return match MessageId::parse(text::trim(arguments)) {
                Some(id) => Ok(Op::Revert(id)),
                None => Err(Error::Workdir(text::owned("usage: /revert-worktree <message-id>"))),
            };
        }
        if !text::blank(arguments) {
            return Err(Error::Workdir(text::cat3("/", name, " does not accept arguments")));
        }
        if self.kind == CommandKind::Apply {
            Ok(Op::Apply)
        } else {
            Ok(Op::Discard)
        }
    }
}

// ---------------------------------------------------------------------------
// The layer
// ---------------------------------------------------------------------------

/// What files and programs of a session go through.
#[derive(Debug, PartialEq, Eq)]
pub enum Layer {
    /// What was there before.
    Inner,
    /// The worktree, at this path.
    Worktree(String),
    /// Nothing: whatever is asked fails with this message.
    Failed(String),
}

/// Chooses what files and programs go through. Without a session nothing changes;
/// with one that could not be opened everything fails.
pub fn layer(session: Option<ids::SessionId>, opened: core::result::Result<String, String>) -> (r:
    Layer)
    ensures
        r == (match session {
            None => Layer::Inner,
            Some(_) => match opened {
                Ok(path) => Layer::Worktree(path),
                Err(message) => Layer::Failed(message),
            },
        }),
{
    match session {
        None => Layer::Inner,
        Some(_) => match opened {
            Ok(path) => Layer::Worktree(path),
            Err(message) => Layer::Failed(message),
        },
    }
}

// ---------------------------------------------------------------------------
// Laws
// ---------------------------------------------------------------------------

/// An operation ends at the first run of Git that fails, or cannot be made.
pub proof fn law_failed_git_ends_the_operation(
    service: worktree::ServiceView,
    op: Op,
    step: Step,
    memo: MemoView,
    state: worktree::ManagedView,
    reply: Reply,
)
    requires
        asked(service, op, step, memo, state) is Git,
        reply is Git,
        reply->Git_0 matches Ok(o) ==> !o.success,
    ensures
        settled(service, op, step, memo, state, reply) is Err,
{
}

/// Whether a step may change what is known of the worktree.
pub open spec fn records(step: Step) -> bool {
    match step {
        Step::AdoptProject => true,
        Step::BaseHead => true,
        Step::ResolveNew => true,
        Step::MarkCheckpoint => true,
        Step::MarkPending => true,
        Step::RecordHead => true,
        Step::ClearPending => true,
        _ => false,
    }
}

/// What is known of the worktree changes only in the steps that record something.
pub proof fn law_other_steps_keep_the_state(
    service: worktree::ServiceView,
    op: Op,
    step: Step,
    memo: MemoView,
    state: worktree::ManagedView,
    reply: Reply,
)
    requires
        !records(step),
    ensures
        settled(service, op, step, memo, state, reply) matches Ok(after) ==> after.1 == state,
{
}

/// A tool call that was begun and not ended blocks checkpoints, further calls,
/// applying and going back: they all check for it before they record anything.
pub proof fn law_unresolved_calls_block(
    service: worktree::ServiceView,
    op: Op,
    memo: MemoView,
    state: worktree::ManagedView,
    reply: Reply,
)
    requires
        op is Checkpoint || op is BeforeTool || op is Apply || op is Revert,
    ensures
        script(op).len() > 8,
        script(op).take(8) == verify() + clean(),
        state.pending is Some ==> settled(service, op, Step::NoPending, memo, state, reply) is Err,
        forall|k: int| 0 <= k < 8 ==> !records(#[trigger] script(op)[k]),
{
    let front = verify() + clean();
    assert(script(op).take(8) =~= front);
    assert forall|k: int| 0 <= k < 8 implies !records(#[trigger] script(op)[k]) by {
        assert(script(op)[k] == front[k]);
    }
}

/// The source is changed only after it was seen to be where the session began,
/// and clean.
pub proof fn law_source_is_checked_before_it_changes(k: int)
    requires
        0 <= k < script(Op::Apply).len(),
        script(Op::Apply)[k] == Step::FastForward,
    ensures
        script(Op::Apply).take(k).contains(Step::SourceHead),
        script(Op::Apply).take(k).contains(Step::SourceClean),
        script(Op::Apply).take(k).contains(Step::WorktreeClean),
{
    let all = script(Op::Apply);
    assert(all.len() == 22);
    assert(all[7] == Step::WorktreeClean);
    assert(all[8] == Step::SourceHead);
    assert(all[9] == Step::SourceClean);
    assert(all[12] == Step::FastForward);
    assert(k == 12) by {
        assert(all =~= verify() + clean() + seq![
            Step::SourceHead,
            Step::SourceClean,
            Step::Tree,
            Step::Squash,
            Step::FastForward,
        ] + removal());
        if k < 12 {
            assert(all[k] != Step::FastForward);
        }
        if k > 12 {
            assert(all[k] == removal()[k - 13]);
        }
    }
    assert(all.take(k)[7] == Step::WorktreeClean);
    assert(all.take(k)[8] == Step::SourceHead);
    assert(all.take(k)[9] == Step::SourceClean);
}

/// Nothing is removed but the worktree of the session, under the directory of all
/// worktrees.
pub proof fn law_only_the_session_worktree_is_removed(
    service: worktree::ServiceView,
    op: Op,
    memo: MemoView,
    state: worktree::ManagedView,
    reply: Reply,
)
    ensures
        settled(service, op, Step::ResolvePath, memo, state, reply) matches Ok(after) ==> {
            &&& paths::is_same(
                after.0.path,
                worktree::session_path(service, state.session_id),
            )
            &&& paths::is_under(after.0.path, memo.root)
        },
{
}

/// A tool call that is completed is committed exactly once, and leaves nothing
/// pending.
pub proof fn law_tool_calls_are_committed_once(call: ToolCall, k: int)
    requires
        0 <= k < script(Op::AfterTool(call)).len(),
    ensures
        script(Op::AfterTool(call))[k] == Step::CommitTool <==> k == 9,
        script(Op::AfterTool(call))[k] == Step::ClearPending <==> k == 11,
{
}

/// What is not as it was left stops the work: a worktree or a source that has changed, a
/// call that does not belong, a tool that moved the head or left conflicts, and a message
/// that was never marked.
pub proof fn law_surprises_stop_the_work(
    service: worktree::ServiceView,
    op: Op,
    memo: MemoView,
    state: worktree::ManagedView,
    reply: Reply,
    t: Seq<char>,
    out: Seq<u8>,
)
    ensures
        reply is Git && worktree::printed_text(worktree::git_view(reply->Git_0)) == Ok::<
            Seq<char>,
            Seq<char>,
        >(t) ==> {
            &&& t != state.expected_head ==> settled(
                service,
                op,
                Step::HeadExpected,
                memo,
                state,
                reply,
            ) is Err
            &&& t != state.base_head ==> settled(service, op, Step::SourceHead, memo, state, reply)
                is Err
            &&& (state.pending matches Some(p) ==> t != p.expected_head) ==> settled(
                service,
                op,
                Step::HeadUnchanged,
                memo,
                state,
                reply,
            ) is Err
            &&& t == state.expected_head ==> settled(
                service,
                op,
                Step::HeadExpected,
                memo,
                state,
                reply,
            ) == Ok::<(MemoView, worktree::ManagedView), Seq<char>>((memo, state))
        },
        reply is Git && out.len() > 0 && (reply->Git_0 matches Ok(o) && o.success && o.stdout@
            == out) ==> {
            &&& settled(service, op, Step::WorktreeClean, memo, state, reply) is Err
            &&& settled(service, op, Step::SourceClean, memo, state, reply) is Err
            &&& settled(service, op, Step::NoConflicts, memo, state, reply) is Err
        },
        state.pending is None ==> settled(service, op, Step::MatchPending, memo, state, reply)
            is Err,
        op matches Op::AfterTool(call) ==> (state.pending matches Some(p) ==> p.call_id
            != call.call_id@ ==> settled(service, op, Step::MatchPending, memo, state, reply)
            is Err),
        op matches Op::Revert(id) ==> worktree::checkpoint_of(state.checkpoints, id) is None
            ==> settled(service, op, Step::FindCheckpoint, memo, state, reply) is Err,
        reply matches Reply::Found(found) ==> {
            &&& !found ==> settled(service, op, Step::PathExists, memo, state, reply) is Err
            &&& found ==> settled(service, op, Step::PathFree, memo, state, reply) is Err
            &&& !found ==> settled(service, op, Step::RootExists, memo, state, reply) is Err
        },
{
}

/// What is remembered of a call and of a message is where the worktree stood.
pub proof fn law_marks_remember_the_head(
    service: worktree::ServiceView,
    op: Op,
    memo: MemoView,
    state: worktree::ManagedView,
    reply: Reply,
)
    ensures
        op matches Op::BeforeTool(call) ==> (settled(
            service,
            op,
            Step::MarkPending,
            memo,
            state,
            reply,
        ) matches Ok(after) && (after.1.pending matches Some(p) && p.call_id == call@
            && p.expected_head == state.expected_head) && after.1.expected_head
            == state.expected_head),
        op matches Op::Checkpoint(id) ==> (settled(
            service,
            op,
            Step::MarkCheckpoint,
            memo,
            state,
            reply,
        ) matches Ok(after) && worktree::checkpoint_of(after.1.checkpoints, id) == Some(
            state.expected_head,
        )),
        settled(service, op, Step::ClearPending, memo, state, reply) matches Ok(after)
            && after.1.pending is None,
{
    if let Op::Checkpoint(id) = op {
        worktree::law_checkpoints_are_found(state.checkpoints, id, state.expected_head, id);
    }
}

/// The message of a commit tells the tool, the session, the turn, the message and the call
/// that it belongs to, each on a line of its own.
pub proof fn law_commits_tell_their_call(session: Seq<char>, call: ToolCall)
    ensures
        tool_message(session, call) == "Airicode tool: "@ + call.name@ + "\n\nAiricode-Session: "@
            + session + "\nAiricode-Turn: "@ + call.turn@ + "\nAiricode-Assistant-Message: "@
            + ids::uuid_spelling(call.assistant.0) + "\nAiricode-Tool-Call: "@ + call.call_id@,
        commit_args(session)[0] == "commit"@,
        commit_args(session)[3] == "-m"@,
        commit_args(session)[4] == session,
{
}

} // verus!
