//! A model of Git, and what the operations on worktrees make of it.
use crate::ids::MessageId;
use crate::paths;
use crate::plugins::workdir_gitworktree as worktree;
use crate::plugins::worktree_job as job;
use crate::plugins::worktree_job::{Op, Reply, Step, ToolCall};
use crate::text;
use vstd::prelude::*;

verus! {

/// What a repository and its worktrees hold. Commits and trees are known by their
/// names, worktrees by their directories.
pub ghost struct Repository {
    /// The commit that each worktree is at.
    pub heads: Map<Seq<char>, Seq<char>>,
    /// The tree of each commit.
    pub trees: Map<Seq<char>, Seq<char>>,
    /// The commit that each commit follows.
    pub parents: Map<Seq<char>, Seq<char>>,
    /// The tree that each worktree has staged.
    pub staged: Map<Seq<char>, Seq<char>>,
    /// The tree that the files of each worktree make.
    pub files: Map<Seq<char>, Seq<char>>,
}

/// What a run of Git that succeeds does, and what it prints.
pub open spec fn runs(
    before: Repository,
    cwd: Seq<char>,
    args: Seq<Seq<char>>,
    stdout: Seq<u8>,
    after: Repository,
) -> bool {
    let shown = text::trimmed(vstd::utf8::decode_utf8(stdout));
    &&& args.len() == 2 && args[0] == "rev-parse"@ ==> after == before
    &&& args == seq!["rev-parse"@, "HEAD"@] ==> shown == before.heads[cwd]
    &&& args == seq!["rev-parse"@, "HEAD^{tree}"@] ==> shown == before.trees[before.heads[cwd]]
    &&& args == seq!["status"@, "--porcelain=v1"@, "--untracked-files=normal"@] ==> {
        &&& after == before
        &&& stdout.len() == 0 ==> before.staged[cwd] == before.trees[before.heads[cwd]]
            && before.files[cwd] == before.trees[before.heads[cwd]]
    }
    &&& args == seq!["diff"@, "--name-only"@, "--diff-filter=U"@] ==> after == before
    &&& args == seq!["add"@, "-A"@] ==> after == Repository {
        staged: before.staged.insert(cwd, before.files[cwd]),
        ..before
    }
    &&& args == seq!["clean"@, "-fd"@] && before.files[cwd] == before.staged[cwd] ==> after
        == before
    &&& args.len() == 5 && args[0] == "commit"@ ==> after == Repository {
        heads: before.heads.insert(cwd, after.heads[cwd]),
        trees: before.trees.insert(after.heads[cwd], before.staged[cwd]),
        parents: before.parents.insert(after.heads[cwd], before.heads[cwd]),
        ..before
    }
    &&& args.len() == 6 && args[0] == "commit-tree"@ && args[2] == "-p"@ ==> after == Repository {
        trees: before.trees.insert(shown, args[1]),
        parents: before.parents.insert(shown, args[3]),
        ..before
    }
    &&& args.len() == 4 && args[0] == "merge"@ && args[1] == "--ff-only"@ ==> after == Repository {
        heads: before.heads.insert(cwd, args[3]),
        staged: before.staged.insert(cwd, before.trees[args[3]]),
        files: before.files.insert(cwd, before.trees[args[3]]),
        ..before
    }
    &&& args.len() == 7 && args[0] == "restore"@ && args[1] == "--source"@ && args[3]
        == "--staged"@ && args[4] == "--worktree"@ && args[6] == "."@ && before.files[cwd]
        == before.staged[cwd] ==> after == Repository {
        staged: before.staged.insert(cwd, before.trees[args[2]]),
        files: before.files.insert(cwd, before.trees[args[2]]),
        ..before
    }
    &&& args.len() == 5 && args[0] == "worktree"@ && args[1] == "add"@ && args[2] == "--detach"@
        ==> after == Repository {
        heads: before.heads.insert(args[3], args[4]),
        staged: before.staged.insert(args[3], before.trees[args[4]]),
        files: before.files.insert(args[3], before.trees[args[4]]),
        ..before
    }
    &&& args.len() == 4 && args[0] == "worktree"@ && args[1] == "remove"@ ==> after == Repository {
        heads: before.heads.remove(args[3]),
        staged: before.staged.remove(args[3]),
        files: before.files.remove(args[3]),
        ..before
    }
}

/// An operation as it went: where it began, what came back for the question of each
/// step, and what the repository held before each step and at the end.
pub ghost struct Course {
    pub service: worktree::ServiceView,
    pub op: Op,
    pub memo: job::MemoView,
    pub state: worktree::ManagedView,
    pub replies: Seq<Reply>,
    pub worlds: Seq<Repository>,
}

/// What is known after `k` steps, or why the operation ended before.
pub open spec fn reached(c: Course, k: int) -> Result<
    (job::MemoView, worktree::ManagedView),
    Seq<char>,
>
    decreases k,
{
    if k <= 0 {
        Ok((c.memo, c.state))
    } else {
        match reached(c, k - 1) {
            Err(m) => Err(m),
            Ok((memo, state)) => job::settled(
                c.service,
                c.op,
                job::script(c.op)[k - 1],
                memo,
                state,
                c.replies[k - 1],
            ),
        }
    }
}

/// What step `k` asks.
pub open spec fn question(c: Course, k: int) -> job::QuestionView {
    job::asked(
        c.service,
        c.op,
        job::script(c.op)[k],
        reached(c, k)->Ok_0.0,
        reached(c, k)->Ok_0.1,
    )
}

/// Whether step `k` was answered as Git answers. Nothing but Git changes what the
/// repository holds.
pub open spec fn is_answered(c: Course, k: int) -> bool {
    &&& job::answers(question(c, k), c.replies[k])
    &&& question(c, k) matches job::QuestionView::Git(cwd, args) ==> (
    c.replies[k]->Git_0 matches Ok(o) ==> o.success ==> runs(
        c.worlds[k],
        cwd,
        args,
        o.stdout@,
        c.worlds[k + 1],
    ))
    &&& !(question(c, k) is Git) ==> c.worlds[k + 1] == c.worlds[k]
}

/// Whether an operation went through all its steps, answered as Git answers.
pub open spec fn went_well(c: Course) -> bool {
    &&& c.replies.len() == job::script(c.op).len()
    &&& c.worlds.len() == job::script(c.op).len() + 1
    &&& forall|k: int| 0 <= k < job::script(c.op).len() ==> #[trigger] is_answered(c, k)
    &&& reached(c, job::script(c.op).len() as int) is Ok
}

/// What is known at the end of an operation.
pub open spec fn end_state(c: Course) -> worktree::ManagedView {
    reached(c, job::script(c.op).len() as int)->Ok_0.1
}

/// What the repository holds at the beginning and at the end of an operation.
pub open spec fn at_first(c: Course) -> Repository {
    c.worlds[0]
}

pub open spec fn at_last(c: Course) -> Repository {
    c.worlds[job::script(c.op).len() as int]
}

proof fn lemma_reached(c: Course, k: int, n: int)
    requires
        0 <= k <= n,
        reached(c, n) is Ok,
    ensures
        reached(c, k) is Ok,
    decreases n,
{
    if k < n {
        lemma_reached(c, k, n - 1);
    }
}

/// One step of an operation that went well.
proof fn lemma_step(c: Course, k: int, step: Step)
    requires
        went_well(c),
        0 <= k < job::script(c.op).len(),
        job::script(c.op)[k] == step,
    ensures
        ({
            let now = reached(c, k)->Ok_0;
            let next = reached(c, k + 1);
            let q = job::asked(c.service, c.op, step, now.0, now.1);
            &&& reached(c, k) is Ok
            &&& next is Ok
            &&& next == job::settled(c.service, c.op, step, now.0, now.1, c.replies[k])
            &&& job::answers(q, c.replies[k])
            &&& q matches job::QuestionView::Git(cwd, args) ==> {
                &&& c.replies[k]->Git_0 is Ok
                &&& c.replies[k]->Git_0->Ok_0.success
                &&& runs(
                    c.worlds[k],
                    cwd,
                    args,
                    c.replies[k]->Git_0->Ok_0.stdout@,
                    c.worlds[k + 1],
                )
            }
            &&& !(q is Git) ==> c.worlds[k + 1] == c.worlds[k]
        }),
{
    lemma_reached(c, k, job::script(c.op).len() as int);
    lemma_reached(c, k + 1, job::script(c.op).len() as int);
    assert(is_answered(c, k));
    let now = reached(c, k)->Ok_0;
    if question(c, k) is Git {
        if !(c.replies[k]->Git_0 matches Ok(o) && o.success) {
            job::law_failed_git_ends_the_operation(
                c.service,
                c.op,
                step,
                now.0,
                now.1,
                c.replies[k],
            );
        }
    }
}

/// The steps that look at the worktree change nothing.
proof fn lemma_verify(c: Course, from: int)
    requires
        went_well(c),
        0 <= from,
        from + 5 <= job::script(c.op).len(),
        job::script(c.op).subrange(from, from + 5) == job::verify(),
    ensures
        ({
            let now = reached(c, from)->Ok_0;
            let next = reached(c, from + 5)->Ok_0;
            &&& reached(c, from) is Ok
            &&& reached(c, from + 5) is Ok
            &&& next.1 == now.1
            &&& next.0.tree == now.0.tree
            &&& next.0.commit == now.0.commit
            &&& next.0.path == now.0.path
            &&& next.0.checkpoint == now.0.checkpoint
            &&& c.worlds[from + 5] == c.worlds[from]
        }),
{
    let part = job::script(c.op).subrange(from, from + 5);
    assert forall|k: int| 0 <= k < 5 implies #[trigger] job::script(c.op)[from + k]
        == job::verify()[k] by {
        assert(part[k] == job::script(c.op)[from + k]);
    }
    assert(job::script(c.op)[from + 0] == Step::PathExists);
    assert(job::script(c.op)[from + 1] == Step::TopLevel);
    assert(job::script(c.op)[from + 2] == Step::ResolveTop);
    assert(job::script(c.op)[from + 3] == Step::CommonDir);
    assert(job::script(c.op)[from + 4] == Step::ResolveCommon);
    lemma_step(c, from, Step::PathExists);
    lemma_step(c, from + 1, Step::TopLevel);
    lemma_step(c, from + 2, Step::ResolveTop);
    lemma_step(c, from + 3, Step::CommonDir);
    lemma_step(c, from + 4, Step::ResolveCommon);
}

/// The steps that look for changes that were not recorded change nothing, and find none.
proof fn lemma_clean(c: Course, from: int)
    requires
        went_well(c),
        0 <= from,
        from + 3 <= job::script(c.op).len(),
        job::script(c.op).subrange(from, from + 3) == job::clean(),
    ensures
        ({
            let now = reached(c, from)->Ok_0;
            let world = c.worlds[from];
            let path = now.1.path;
            &&& reached(c, from) is Ok
            &&& reached(c, from + 3) == reached(c, from)
            &&& c.worlds[from + 3] == world
            &&& now.1.pending is None
            &&& world.heads[path] == now.1.expected_head
            &&& world.files[path] == world.trees[world.heads[path]]
            &&& world.staged[path] == world.trees[world.heads[path]]
        }),
{
    let part = job::script(c.op).subrange(from, from + 3);
    assert(part[0] == job::script(c.op)[from] && part[1] == job::script(c.op)[from + 1] && part[2]
        == job::script(c.op)[from + 2]);
    lemma_step(c, from, Step::NoPending);
    lemma_step(c, from + 1, Step::HeadExpected);
    lemma_step(c, from + 2, Step::WorktreeClean);
}

/// The steps that remove a worktree leave every other one as it is.
proof fn lemma_removal(c: Course, from: int)
    requires
        went_well(c),
        0 <= from,
        from + 9 <= job::script(c.op).len(),
        job::script(c.op).subrange(from, from + 9) == job::removal(),
    ensures
        ({
            let now = reached(c, from)->Ok_0;
            let next = reached(c, from + 9)->Ok_0;
            let path = next.0.path;
            let before = c.worlds[from];
            &&& reached(c, from) is Ok
            &&& reached(c, from + 9) is Ok
            &&& next.1 == now.1
            &&& next.0.commit == now.0.commit
            &&& paths::is_same(path, worktree::session_path(c.service, now.1.session_id))
            &&& c.worlds[from + 9] == Repository {
                heads: before.heads.remove(path),
                staged: before.staged.remove(path),
                files: before.files.remove(path),
                ..before
            }
        }),
{
    let all = job::script(c.op);
    let part = all.subrange(from, from + 9);
    assert forall|k: int| 0 <= k < 9 implies #[trigger] all[from + k] == job::removal()[k] by {
        assert(part[k] == all[from + k]);
    }
    assert(all[from + 0] == Step::ResolveRoot);
    assert(all[from + 1] == Step::ResolvePath);
    assert(all[from + 7] == Step::RemoveWorktree);
    assert(all[from + 8] == Step::ForgetState);
    assert(all.subrange(from + 2, from + 7) =~= job::verify()) by {
        assert forall|k: int| 0 <= k < 5 implies all.subrange(from + 2, from + 7)[k]
            == #[trigger] job::verify()[k] by {
            assert(all[from + (k + 2)] == job::removal()[k + 2]);
        }
    }
    lemma_step(c, from, Step::ResolveRoot);
    lemma_step(c, from + 1, Step::ResolvePath);
    lemma_verify(c, from + 2);
    lemma_step(c, from + 7, Step::RemoveWorktree);
    lemma_step(c, from + 8, Step::ForgetState);
}

proof fn lemma_starts(c: Course)
    requires
        went_well(c),
        c.op is Checkpoint || c.op is BeforeTool || c.op is Apply || c.op is Revert,
    ensures
        ({
            let world = c.worlds[0];
            let path = c.state.path;
            let next = reached(c, 8)->Ok_0;
            &&& reached(c, 8) is Ok
            &&& next.1 == c.state
            &&& c.worlds[8] == world
            &&& c.state.pending is None
            &&& world.heads[path] == c.state.expected_head
            &&& world.files[path] == world.trees[world.heads[path]]
            &&& world.staged[path] == world.trees[world.heads[path]]
        }),
{
    let all = job::script(c.op);
    assert(all.subrange(0, 5) =~= job::verify());
    assert(all.subrange(5, 8) =~= job::clean());
    lemma_verify(c, 0);
    lemma_clean(c, 5);
}

/// Applying a session gives the source exactly what the worktree of the session held:
/// one commit on top of the one where the session began, with the tree of the
/// worktree's head. It is done only where the worktree and the source have no other
/// changes and the source is still where the session began.
pub proof fn law_applying_brings_the_changes(c: Course)
    requires
        went_well(c),
        c.op is Apply,
        c.service.repository != c.state.path,
        !paths::is_same(
            c.service.repository,
            worktree::session_path(c.service, c.state.session_id),
        ),
    ensures
        ({
            let source = c.service.repository;
            let wanted = at_first(c).trees[at_first(c).heads[c.state.path]];
            let head = at_last(c).heads[source];
            &&& at_last(c).trees[head] == wanted
            &&& at_last(c).files[source] == wanted
            &&& at_last(c).parents[head] == at_first(c).heads[source]
            &&& at_first(c).heads[source] == c.state.base_head
            &&& at_first(c).files[source] == at_first(c).trees[c.state.base_head]
            &&& at_first(c).files[c.state.path] == wanted
        }),
{
    let all = job::script(c.op);
    lemma_starts(c);
    assert(all.len() == 22);
    assert(all[8] == Step::SourceHead);
    assert(all[9] == Step::SourceClean);
    assert(all[10] == Step::Tree);
    assert(all[11] == Step::Squash);
    assert(all[12] == Step::FastForward);
    lemma_step(c, 8, Step::SourceHead);
    lemma_step(c, 9, Step::SourceClean);
    lemma_step(c, 10, Step::Tree);
    lemma_step(c, 11, Step::Squash);
    lemma_step(c, 12, Step::FastForward);
    assert(all.subrange(13, 22) =~= job::removal());
    lemma_removal(c, 13);
}

/// Discarding a session removes its worktree and changes nothing else: the source stays
/// as it is, and so do all commits.
pub proof fn law_discarding_leaves_the_source(c: Course, other: Seq<char>)
    requires
        went_well(c),
        c.op is Discard,
        !paths::is_same(other, worktree::session_path(c.service, c.state.session_id)),
    ensures
        at_last(c).heads[other] == at_first(c).heads[other],
        at_last(c).files[other] == at_first(c).files[other],
        at_last(c).trees == at_first(c).trees,
        exists|path: Seq<char>|
            paths::is_same(path, worktree::session_path(c.service, c.state.session_id))
                && !#[trigger] at_last(c).heads.contains_key(path),
        end_state(c) == c.state,
{
    let all = job::script(c.op);
    assert(all.len() == 14);
    assert(all.subrange(0, 5) =~= job::verify());
    assert(all.subrange(5, 14) =~= job::removal());
    lemma_verify(c, 0);
    lemma_removal(c, 5);
    let path = reached(c, 14)->Ok_0.0.path;
    assert(!at_last(c).heads.contains_key(path));
}

/// A tool call that ends well is committed as a whole: the new head of the worktree has
/// the tree that its files made, follows the head from before the call, and is the one
/// that is expected from then on. Nothing is pending any more, and no other worktree
/// changes.
pub proof fn law_tool_calls_are_committed(c: Course, call: ToolCall, other: Seq<char>)
    requires
        went_well(c),
        c.op == Op::AfterTool(call),
        other != c.state.path,
    ensures
        ({
            let path = c.state.path;
            let head = at_last(c).heads[path];
            &&& at_last(c).trees[head] == at_first(c).files[path]
            &&& at_last(c).files[path] == at_first(c).files[path]
            &&& at_last(c).parents[head] == at_first(c).heads[path]
            &&& at_last(c).heads[other] == at_first(c).heads[other]
            &&& at_last(c).files[other] == at_first(c).files[other]
            &&& c.state.pending matches Some(p) && p.call_id == call.call_id@ && p.expected_head
                == at_first(c).heads[path]
            &&& end_state(c) == worktree::ManagedView {
                expected_head: head,
                pending: None,
                ..c.state
            }
        }),
{
    let all = job::script(c.op);
    assert(all.len() == 13);
    assert(all.subrange(0, 5) =~= job::verify());
    lemma_verify(c, 0);
    assert(all[5] == Step::MatchPending);
    assert(all[6] == Step::HeadUnchanged);
    assert(all[7] == Step::NoConflicts);
    assert(all[8] == Step::StageChanges);
    assert(all[9] == Step::CommitTool);
    assert(all[10] == Step::RecordHead);
    assert(all[11] == Step::ClearPending);
    assert(all[12] == Step::Save);
    lemma_step(c, 5, Step::MatchPending);
    lemma_step(c, 6, Step::HeadUnchanged);
    lemma_step(c, 7, Step::NoConflicts);
    lemma_step(c, 8, Step::StageChanges);
    lemma_step(c, 9, Step::CommitTool);
    lemma_step(c, 10, Step::RecordHead);
    lemma_step(c, 11, Step::ClearPending);
    lemma_step(c, 12, Step::Save);
}

/// A checkpoint remembers the head of the worktree, which then has no changes of its
/// own, and changes nothing else.
pub proof fn law_checkpoints_remember_the_head(c: Course, id: MessageId, other: MessageId)
    requires
        went_well(c),
        c.op == Op::Checkpoint(id),
        other != id,
    ensures
        at_last(c) == at_first(c),
        worktree::checkpoint_of(end_state(c).checkpoints, id) == Some(
            at_first(c).heads[c.state.path],
        ),
        at_first(c).files[c.state.path] == at_first(c).trees[at_first(c).heads[c.state.path]],
        worktree::checkpoint_of(end_state(c).checkpoints, other) == worktree::checkpoint_of(
            c.state.checkpoints,
            other,
        ),
        end_state(c) == (worktree::ManagedView {
            checkpoints: end_state(c).checkpoints,
            ..c.state
        }),
{
    let all = job::script(c.op);
    lemma_starts(c);
    assert(all.len() == 10);
    assert(all[8] == Step::MarkCheckpoint);
    assert(all[9] == Step::Save);
    lemma_step(c, 8, Step::MarkCheckpoint);
    lemma_step(c, 9, Step::Save);
    worktree::law_checkpoints_are_found(
        c.state.checkpoints,
        id,
        c.state.expected_head,
        other,
    );
}

/// A tool call that begins is noted with the head that the worktree is at, and changes
/// nothing else.
pub proof fn law_begun_calls_are_noted(c: Course, call: String)
    requires
        went_well(c),
        c.op == Op::BeforeTool(call),
    ensures
        at_last(c) == at_first(c),
        end_state(c) == (worktree::ManagedView {
            pending: Some(
                worktree::PendingView {
                    call_id: call@,
                    expected_head: at_first(c).heads[c.state.path],
                },
            ),
            ..c.state
        }),
{
    let all = job::script(c.op);
    lemma_starts(c);
    assert(all.len() == 10);
    assert(all[8] == Step::MarkPending);
    assert(all[9] == Step::Save);
    lemma_step(c, 8, Step::MarkPending);
    lemma_step(c, 9, Step::Save);
}

/// Going back to a message gives the worktree the tree that it had at the checkpoint of
/// that message, as a new commit on top of its head: nothing that was committed is lost.
/// No other worktree changes.
pub proof fn law_going_back_restores_the_tree(c: Course, id: MessageId, other: Seq<char>)
    requires
        went_well(c),
        c.op == Op::Revert(id),
        other != c.state.path,
    ensures
        ({
            let path = c.state.path;
            let head = at_last(c).heads[path];
            &&& worktree::checkpoint_of(c.state.checkpoints, id) matches Some(saved)
            &&& at_last(c).trees[head] == at_first(c).trees[saved]
            &&& at_last(c).files[path] == at_first(c).trees[saved]
            &&& at_last(c).parents[head] == at_first(c).heads[path]
            &&& at_last(c).heads[other] == at_first(c).heads[other]
            &&& at_last(c).files[other] == at_first(c).files[other]
            &&& end_state(c) == worktree::ManagedView { expected_head: head, ..c.state }
        }),
{
    let all = job::script(c.op);
    lemma_starts(c);
    assert(all.len() == 14);
    assert(all[8] == Step::FindCheckpoint);
    assert(all[9] == Step::RemoveUntracked);
    assert(all[10] == Step::RestoreTree);
    assert(all[11] == Step::CommitRestored);
    assert(all[12] == Step::RecordHead);
    assert(all[13] == Step::Save);
    lemma_step(c, 8, Step::FindCheckpoint);
    lemma_step(c, 9, Step::RemoveUntracked);
    lemma_step(c, 10, Step::RestoreTree);
    lemma_step(c, 11, Step::CommitRestored);
    lemma_step(c, 12, Step::RecordHead);
    lemma_step(c, 13, Step::Save);
}

/// A session begins where the source is: its worktree is made at the place that was
/// chosen for it, at the head of the source and with its tree. The source stays as it is.
pub proof fn law_sessions_begin_at_the_source(c: Course)
    requires
        went_well(c),
        c.op is Create,
        c.service.repository != c.state.path,
    ensures
        ({
            let source = c.service.repository;
            let head = at_first(c).heads[source];
            &&& at_last(c).heads[c.state.path] == head
            &&& at_last(c).files[c.state.path] == at_first(c).trees[head]
            &&& at_last(c).heads[source] == head
            &&& at_last(c).files[source] == at_first(c).files[source]
            &&& end_state(c).base_head == head
            &&& end_state(c).expected_head == head
            &&& end_state(c) == worktree::ManagedView {
                base_head: head,
                expected_head: head,
                path: end_state(c).path,
                ..c.state
            }
        }),
{
    let all = job::script(c.op);
    assert(all.len() == 7);
    lemma_step(c, 0, Step::PathFree);
    lemma_step(c, 1, Step::BaseHead);
    lemma_step(c, 2, Step::MakeParent);
    lemma_step(c, 3, Step::AddWorktree);
    lemma_step(c, 4, Step::ResolveNew);
    lemma_step(c, 5, Step::SaveNew);
    lemma_step(c, 6, Step::RootExists);
}

/// Opening a worktree again changes nothing in the repository; one that an earlier
/// process made is taken over for the project that asks.
pub proof fn law_opening_again_changes_nothing(c: Course)
    requires
        went_well(c),
        c.op is Reopen || c.op is Restore,
    ensures
        at_last(c) == at_first(c),
        c.op is Reopen ==> end_state(c) == c.state,
        c.op matches Op::Restore(project) ==> end_state(c) == (worktree::ManagedView {
            project_id: project,
            ..c.state
        }),
{
    let all = job::script(c.op);
    assert(all.subrange(0, 5) =~= job::verify());
    lemma_verify(c, 0);
    if c.op is Restore {
        assert(all.len() == 8);
        lemma_step(c, 5, Step::AdoptProject);
        lemma_step(c, 6, Step::Save);
        lemma_step(c, 7, Step::RootExists);
    }
}

} // verus!
