use airicode::digest::sha256_hex;
use airicode::history::HistoryEdit;
use airicode::ids::{MessageId, ProjectId, SessionId};
use airicode::plugins::workdir_gitworktree::{
    ensure_success, find_checkpoint, git, git_stdout, set_checkpoint, GitOutput, ManagedState,
    WorktreeService,
};
use airicode::plugins::worktree_job::{
    find_message, history_edit, layer, opening, CommandKind, Job, Layer, Op, Opening, Question,
    Reply, Saved, ToolCall, WorktreeCommand,
};

fn service() -> WorktreeService {
    match WorktreeService::new("/repo/app", "/repo", "/repo/.git", "/data") {
        Ok(service) => service,
        Err(_) => panic!("the project lies in the repository"),
    }
}

#[test]
fn no_session_layer_is_a_noop() {
    assert_eq!(layer(None, Ok("/data/elsewhere".to_string())), Layer::Inner);
}

#[test]
fn sessions_work_in_their_worktree() {
    assert_eq!(
        layer(Some(SessionId(1)), Ok("/data/w".to_string())),
        Layer::Worktree("/data/w".to_string())
    );
    assert_eq!(
        layer(Some(SessionId(1)), Err("broken".to_string())),
        Layer::Failed("broken".to_string())
    );
}

#[test]
fn worktrees_are_named_by_project_and_session() {
    let service = service();
    let path = service.session_path(SessionId(1));
    assert_eq!(
        path,
        format!(
            "/data/worktrees/{}/{}",
            sha256_hex(b"/repo/app"),
            sha256_hex(b"00000000-0000-0000-0000-000000000001")
        )
    );
    assert_eq!(service.state_file(SessionId(1)), format!("{path}.json"));
    let state = service.draft(ProjectId(3), SessionId(1));
    assert_eq!(state.path, path);
    assert_eq!(state.repository, "/repo");
    assert_eq!(service.root(&state), format!("{path}/app"));
    assert!(service.verify_identity(&state, ProjectId(3), SessionId(1)).is_ok());
    assert!(service.verify_identity(&state, ProjectId(4), SessionId(1)).is_err());
    assert!(service.verify_persisted_identity(&state, SessionId(2)).is_err());
    assert!(service.with_state(None, ProjectId(3), SessionId(1)).is_err());
    assert!(WorktreeService::new("/other", "/repo", "/repo/.git", "/data").is_err());
}

#[test]
fn checkpoints_are_found_as_they_were_set() {
    let mut list: Vec<(MessageId, String)> = Vec::new();
    set_checkpoint(&mut list, MessageId(1), "a");
    set_checkpoint(&mut list, MessageId(2), "b");
    set_checkpoint(&mut list, MessageId(1), "c");
    assert_eq!(find_checkpoint(&list, MessageId(1)), Some("c".to_string()));
    assert_eq!(find_checkpoint(&list, MessageId(2)), Some("b".to_string()));
    assert_eq!(find_checkpoint(&list, MessageId(3)), None);
}

fn output(success: bool, stdout: &str, stderr: &str) -> GitOutput {
    GitOutput {
        success,
        stdout: stdout.as_bytes().to_vec(),
        stderr: stderr.as_bytes().to_vec(),
    }
}

#[test]
fn failed_runs_of_git_are_told() {
    assert_eq!(git_stdout(Ok(output(true, "abc\n", ""))), Ok("abc".to_string()));
    let failure = git_stdout(Ok(output(false, "", "fatal: bad\n"))).unwrap_err();
    assert!(failure.contains("fatal: bad"));
    assert!(ensure_success("status", Err("no git".to_string())).is_err());
    let command = git("/w", &["status".to_string()]);
    assert_eq!(command.program, "git");
    assert_eq!(command.args.last().unwrap(), "status");
}

/// Answers the questions of a job for a worktree that is as it should be.
fn answer(question: Question, state: &ManagedState, dirty: bool) -> Reply {
    match question {
        Question::Nothing => Reply::Nothing,
        Question::IsDirectory(_) => Reply::Found(true),
        Question::Exists(_) => Reply::Found(false),
        Question::Resolve(path) => Reply::Path(Ok(path)),
        Question::MakeDirectory(_) => Reply::Done(Ok(())),
        Question::RemoveState(_) => Reply::Done(Ok(())),
        Question::Save => Reply::Saved(Saved::Saved),
        Question::Git(_, args) => {
            let line = args.join(" ");
            let stdout = if line.contains("--show-toplevel") {
                state.path.clone()
            } else if line.contains("--git-common-dir") {
                state.common_dir.clone()
            } else if line.contains("status") {
                if dirty { " M a".to_string() } else { String::new() }
            } else if line.contains("rev-parse") {
                "head".to_string()
            } else {
                String::new()
            };
            Reply::Git(Ok(output(true, &stdout, "")))
        }
    }
}

fn managed(service: &WorktreeService) -> ManagedState {
    let mut state = service.draft(ProjectId(3), SessionId(1));
    state.base_head = "head".to_string();
    state.expected_head = "head".to_string();
    state
}

fn run(op: Op, service: &WorktreeService, state: &mut ManagedState, dirty: bool) -> bool {
    let mut job = Job::begin(op);
    loop {
        let question = match job.question(service, state) {
            Some(question) => question,
            None => return true,
        };
        let reply = answer(question, state, dirty);
        if job.reply(service, state, reply).is_err() {
            return false;
        }
    }
}

#[test]
fn checkpoints_need_a_clean_worktree() {
    let service = service();
    let mut state = managed(&service);
    assert!(!run(Op::Checkpoint(MessageId(5)), &service, &mut state, true));
    assert_eq!(find_checkpoint(&state.checkpoints, MessageId(5)), None);
    assert!(run(Op::Checkpoint(MessageId(5)), &service, &mut state, false));
    assert_eq!(
        find_checkpoint(&state.checkpoints, MessageId(5)),
        Some("head".to_string())
    );
}

#[test]
fn a_begun_tool_call_blocks_until_it_ends() {
    let service = service();
    let mut state = managed(&service);
    assert!(run(Op::BeforeTool("c".to_string()), &service, &mut state, false));
    assert_eq!(state.pending.as_ref().unwrap().call_id, "c");
    assert!(!run(Op::Checkpoint(MessageId(5)), &service, &mut state, false));
    assert!(!run(Op::BeforeTool("d".to_string()), &service, &mut state, false));
    let call = ToolCall {
        call_id: "c".to_string(),
        name: "write".to_string(),
        turn: "t".to_string(),
        assistant: MessageId(6),
    };
    assert!(run(Op::AfterTool(call), &service, &mut state, false));
    assert!(state.pending.is_none());
}

#[test]
fn going_back_needs_a_checkpoint() {
    let service = service();
    let mut state = managed(&service);
    assert!(!run(Op::Revert(MessageId(5)), &service, &mut state, false));
    set_checkpoint(&mut state.checkpoints, MessageId(5), "older");
    assert!(run(Op::Revert(MessageId(5)), &service, &mut state, false));
    let list = [MessageId(1), MessageId(5), MessageId(7)];
    let index = find_message(&list, MessageId(5)).unwrap();
    assert_eq!(index, 1);
    assert!(find_message(&list, MessageId(9)).is_err());
    assert_eq!(history_edit(&list, 1), HistoryEdit::TruncateAfter(MessageId(1)));
    assert_eq!(
        history_edit(&list, 0),
        HistoryEdit::RemoveAll(MessageId(1), MessageId(7))
    );
}

#[test]
fn commands_read_their_arguments() {
    let apply = WorktreeCommand::new(CommandKind::Apply);
    assert!(matches!(apply.operation(apply.name(), ""), Ok(Op::Apply)));
    assert!(apply.operation(apply.name(), "extra").is_err());
    let revert = WorktreeCommand::new(CommandKind::Revert);
    let id = MessageId(5);
    assert!(matches!(
        revert.operation(revert.name(), &id.spelled()),
        Ok(Op::Revert(found)) if found == id
    ));
    assert!(revert.operation(revert.name(), "x").is_err());
    assert_eq!(
        WorktreeCommand::new(CommandKind::Discard).id(),
        "builtin.git-worktree.discard"
    );
}

/// Runs a job to its end and keeps the commands of Git that it ran.
fn commands(
    op: Op,
    service: &WorktreeService,
    state: &mut ManagedState,
    dirty: bool,
    failing: &str,
) -> (bool, Vec<String>) {
    let mut job = Job::begin(op);
    let mut ran = Vec::new();
    loop {
        let question = match job.question(service, state) {
            Some(question) => question,
            None => return (true, ran),
        };
        let mut fails = false;
        if let Question::Git(_, args) = &question {
            ran.push(args.join(" "));
            fails = !failing.is_empty() && ran.last().unwrap().contains(failing);
        }
        let reply = if fails {
            Reply::Git(Ok(output(false, "", "fatal")))
        } else {
            answer(question, state, dirty)
        };
        if job.reply(service, state, reply).is_err() {
            return (false, ran);
        }
    }
}

#[test]
fn completed_tool_calls_are_committed_once() {
    let service = service();
    let mut state = managed(&service);
    assert!(run(Op::BeforeTool("c".to_string()), &service, &mut state, false));
    let call = ToolCall {
        call_id: "c".to_string(),
        name: "write".to_string(),
        turn: "t".to_string(),
        assistant: MessageId(6),
    };
    let (done, ran) = commands(Op::AfterTool(call), &service, &mut state, false, "");
    assert!(done);
    assert_eq!(ran.iter().filter(|line| line.starts_with("commit ")).count(), 1);
}

#[test]
fn dirty_sources_are_not_changed() {
    let service = service();
    let mut state = managed(&service);
    let (done, ran) = commands(Op::Apply, &service, &mut state, true, "");
    assert!(!done);
    assert!(!ran.iter().any(|line| line.starts_with("merge")));
    let mut state = managed(&service);
    let (done, ran) = commands(Op::Apply, &service, &mut state, false, "");
    assert!(done);
    assert_eq!(ran.iter().filter(|line| line.starts_with("merge --ff-only")).count(), 1);
}

#[test]
fn failed_git_ends_an_operation() {
    let service = service();
    let mut state = managed(&service);
    let (done, ran) = commands(Op::Apply, &service, &mut state, false, "merge");
    assert!(!done);
    assert!(ran.last().unwrap().starts_with("merge"));
}

#[test]
fn only_the_worktree_of_the_session_is_removed() {
    let service = service();
    let mut state = managed(&service);
    let path = state.path.clone();
    let (done, ran) = commands(Op::Discard, &service, &mut state, false, "");
    assert!(done);
    assert_eq!(
        ran.iter().filter(|line| line.starts_with("worktree remove")).collect::<Vec<_>>(),
        vec![&format!("worktree remove --force {path}")]
    );
    let mut moved = managed(&service);
    moved.path = "/elsewhere".to_string();
    let (done, ran) = commands(Op::Discard, &service, &mut moved, false, "");
    assert!(!done);
    assert!(!ran.iter().any(|line| line.starts_with("worktree remove")));
}

#[test]
fn worktrees_are_made_only_where_there_is_none() {
    assert_eq!(opening(true, true), Opening::Reopen);
    assert_eq!(opening(true, false), Opening::Reopen);
    assert_eq!(opening(false, true), Opening::Restore);
    assert_eq!(opening(false, false), Opening::Create);
}
