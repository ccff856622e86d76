use airicode::bounded;
use airicode::history::HistoryEdit;
use airicode::ids::{fresh, MessageId, ProjectId, SessionId};
use airicode::json::{array, object, Json};
use airicode::model::{
    ContextPriority, Error, FinishReason, Message, MessagePart, MessagePartContent, ProviderEvent,
    ProviderMode, Role, ToolOutput, Usage,
};
use airicode::plugins::action_config::{
    chosen_editor, editor_arguments, editor_ended, read_edited, respond_schema, schema_url,
    wants_more, without_schema, ActionConfig, ActionConfigPlugin,
};
use airicode::plugins::approval::{approval_plugin, ApprovalPolicy, BeforeHookResult};
use airicode::plugins::compaction;
use airicode::plugins::compaction::{
    compaction_end, compaction_plugin, estimate_tokens, fits_budget, CompactionPluginConfig,
    Summary,
};
use airicode::plugins::file_tools::{FileFacts, FileProbe};
use airicode::plugins::fork::{
    fork_plugin, parse_optional_message_id, ForkArtifact, ForkConfig, ForkProvenance,
    SCHEMA_VERSION,
};
use airicode::plugins::instruction_agents::{
    agents_instructions_plugin, AgentsInstructionsConfig,
};
use airicode::plugins::instruction_base::InstructionBasePlugin;
use airicode::plugins::persistence::{
    check_append, default_data_root, load, log_line, project_hash, recover_partial_tail, split_log,
    JsonlSessionStore, SessionCommit, SessionLogRecord, TailFix,
};
use airicode::plugins::revert::{
    capture_files, explicit_paths, history_anchor, parse_optional_record_id, plan_history,
    revert_plugin, Found, Restore, RevertCapture, RevertConfig, RevertOutcome, RevertState,
};
use airicode::plugins::sidequery::{sidequery_plugin, SideQueryConfig, SideQueryOutput};
use airicode::plugins::skills::{
    read_head, read_metadata, skills_plugin, validate_name, SkillEntry, SkillEntryKind, SkillWalk,
    SkillsInput,
};
use airicode::plugins::subagents::{
    subagents_plugin, validate_config, AssistantBuffer, Round, SubagentConfig, SubagentInput,
    SubagentTool,
};
use airicode::utils::timeseq::TimeSeq;

fn field(name: &str, value: Json) -> (String, Json) {
    (name.to_string(), value)
}

fn message(role: Role, parts: Vec<MessagePart>) -> Message {
    let mut message = Message::text(role, "", "build");
    message.content = parts;
    message
}

fn delta(text: &str) -> ProviderEvent {
    ProviderEvent::TextDelta { text: text.to_string() }
}

#[test]
fn tool_call_group_is_not_split() {
    let messages = vec![
        Message::text(Role::User, "old", "build"),
        message(
            Role::Assistant,
            vec![MessagePart::tool_call("call", "read", object(vec![]))],
        ),
        message(
            Role::Tool,
            vec![MessagePart::tool_result(
                "call",
                "read",
                ToolOutput::Success { content: "result".to_string() },
            )],
        ),
        Message::text(Role::User, "current", "build"),
    ];
    assert_eq!(compaction_end(&messages, 2), Some(0));
    assert_eq!(compaction_end(&messages, 1), Some(2));
}

#[test]
fn bounded_append_preserves_utf8_boundaries() {
    let mut output = String::new();
    compaction::append_bounded(&mut output, "abcé", 4);
    assert_eq!(output, "abc");
}

#[test]
fn tokens_are_estimated_from_bytes() {
    assert_eq!(estimate_tokens(""), 0);
    assert_eq!(estimate_tokens("abc"), 1);
    assert_eq!(estimate_tokens("abcde"), 2);
    assert_eq!(estimate_tokens("é"), 1);
    let messages = [Message::text(Role::User, "abc", "build")];
    assert!(fits_budget(&messages, &[], &[], 5));
    assert!(!fits_budget(&messages, &[], &[], 4));
}

#[test]
fn compaction_configurations_are_checked() {
    let mut config = CompactionPluginConfig::default();
    config.max_input_tokens = 0;
    assert!(compaction_plugin(config).is_err());
    let plugin = match compaction_plugin(CompactionPluginConfig::default()) {
        Ok(plugin) => plugin,
        Err(_) => panic!("the default is valid"),
    };
    assert_eq!(
        plugin.input_budget(),
        plugin.config.max_input_tokens - plugin.config.reserved_output_tokens
    );
    let messages = [Message::text(Role::User, "hi", "build")];
    assert!(!plugin.needs_compaction(ProviderMode::Normal, &messages, &[], &[]));
    let long = [Message::text(Role::User, &"x".repeat(1_000_000), "build")];
    assert!(plugin.needs_compaction(ProviderMode::Normal, &long, &[], &[]));
    assert!(!plugin.needs_compaction(ProviderMode::Compaction, &long, &[], &[]));
    let request = plugin.summary_request("m", &messages);
    assert_eq!(request.mode, ProviderMode::Compaction);
    assert_eq!(request.messages.len(), 3);
    assert!(request.tools.is_empty() && request.context.is_empty());
}

#[test]
fn a_query_is_one_request_without_tools() {
    let mut config = SideQueryConfig::new("m".to_string());
    config.model = None;
    config.system = Some("be brief".to_string());
    let command = match sidequery_plugin(config) {
        Ok(command) => command,
        Err(_) => panic!("the configuration is valid"),
    };
    let request = match command.start("why?", false, "p", true, "current") {
        Ok(request) => request,
        Err(_) => panic!("the query can be sent"),
    };
    assert_eq!(request.mode, ProviderMode::SideQuery);
    assert_eq!(request.model, "current");
    assert!(request.tools.is_empty() && request.context.is_empty());
    let roles: Vec<Role> = request.messages.iter().map(|message| message.role).collect();
    assert_eq!(roles, vec![Role::System, Role::User]);
    assert!(matches!(command.start(" ", true, "p", true, "m"), Err(Error::Plugin(_))));
    assert!(matches!(command.start("why?", true, "p", false, "m"), Err(Error::Cancelled)));
    assert!(matches!(command.start("why?", false, "p", false, "m"), Err(Error::Provider(_))));
    assert!(matches!(command.start("why?", false, "p", true, " "), Err(Error::Provider(_))));
}

#[test]
fn rounds_of_a_subagent_carry_no_tools() {
    let mut config = SubagentConfig::new("m".to_string());
    config.tool_allowlist = vec!["read".to_string()];
    let tool = match subagents_plugin(config) {
        Ok(tool) => tool,
        Err(_) => panic!("the configuration is valid"),
    };
    let input = SubagentInput { prompt: "look".to_string(), system: None, depth: 0 };
    let run = tool.begin("/project", &input, &[]);
    let request = tool.request(&run, "m");
    assert_eq!(request.mode, ProviderMode::Subagent);
    assert!(request.tools.is_empty() && request.context.is_empty());
    assert_eq!(request.messages.len(), 2);
}

#[test]
fn summaries_take_text_and_no_tool_calls() {
    let plugin = match compaction_plugin(CompactionPluginConfig::default()) {
        Ok(plugin) => plugin,
        Err(_) => panic!("the default is valid"),
    };
    let mut summary = Summary { text: String::new(), rejected_tool_call: false };
    plugin.take_event(&mut summary, &delta("short "));
    plugin.take_event(&mut summary, &delta("story"));
    assert_eq!(plugin.finish(summary).unwrap(), "short story");
    let empty = Summary { text: " \n".to_string(), rejected_tool_call: false };
    assert!(plugin.finish(empty).is_err());
    let mut tooled = Summary { text: "a".to_string(), rejected_tool_call: false };
    plugin.take_event(
        &mut tooled,
        &ProviderEvent::ToolCallDelta {
            index: 0,
            id: None,
            name: None,
            arguments: String::new(),
        },
    );
    assert!(plugin.finish(tooled).is_err());
}

#[test]
fn artifacts_are_independent_of_their_source() {
    let first = Message::text(Role::User, "one", "build");
    let second = Message::text(Role::Assistant, "two", "build");
    let source = SessionId(fresh());
    let artifact = ForkArtifact {
        schema_version: SCHEMA_VERSION,
        session_id: SessionId(fresh()),
        provenance: ForkProvenance {
            source_session_id: source,
            through_message_id: Some(first.id),
        },
        messages: vec![first.clone()],
    };
    assert_ne!(artifact.session_id, source);
    assert_eq!(artifact.messages[0].id, first.id);
    assert_ne!(artifact.messages[0].id, second.id);
}

#[test]
fn forks_take_the_messages_through_the_named_one() {
    let messages = vec![
        Message::text(Role::User, "one", "build"),
        Message::text(Role::Assistant, "two", "build"),
        Message::text(Role::User, "three", "build"),
    ];
    let command = fork_plugin(ForkConfig::stored_in("/forks".to_string()));
    let argument = format!(" {} ", messages[1].id.spelled());
    let artifact = command.fork(&argument, SessionId(7), &messages).unwrap();
    assert_eq!(artifact.schema_version, 1);
    assert_eq!(artifact.messages.len(), 2);
    assert_eq!(artifact.messages[1].id, messages[1].id);
    assert_eq!(artifact.provenance.source_session_id, SessionId(7));
    assert_eq!(artifact.provenance.through_message_id, Some(messages[1].id));
    let path = command.artifact_path(&artifact).unwrap();
    assert!(path.starts_with("/forks/"));
    assert!(path.contains(&artifact.session_id.spelled()));
    let whole = command.fork("", SessionId(7), &messages).unwrap();
    assert_eq!(whole.messages.len(), 3);
    let unknown = MessageId(fresh());
    assert!(matches!(
        command.fork(&unknown.spelled(), SessionId(7), &messages),
        Err(Error::Plugin(m)) if m == format!(
            "message {} is not in session {}",
            unknown.spelled(),
            SessionId(7).spelled()
        )
    ));
    assert!(parse_optional_message_id("nonsense").is_err());
    assert_eq!(parse_optional_message_id("  ").unwrap(), None);
    let ids = [messages[0].id, messages[1].id];
    let prefix = &messages[0].id.spelled()[..13];
    assert_eq!(command.complete(&ids, prefix), vec![messages[0].id.spelled()]);
}

#[test]
fn discovers_nested_explicit_path_arguments_only() {
    let paths = explicit_paths(&object(vec![
        field("path", Json::text("one.txt")),
        field(
            "options",
            object(vec![field(
                "output_paths",
                array(vec![Json::text("two.txt"), Json::text("one.txt")]),
            )]),
        ),
        field("script", Json::text("not-a-path")),
    ]))
    .unwrap();
    assert_eq!(paths, vec!["one.txt", "two.txt"]);
    assert!(explicit_paths(&object(vec![field("path", Json::text("../outside"))])).is_err());
}

fn history() -> Vec<Message> {
    vec![
        Message::text(Role::User, "do it", "build"),
        message(
            Role::Assistant,
            vec![MessagePart::tool_call("call", "write", object(vec![]))],
        ),
    ]
}

fn captured(messages: &[Message], files: Vec<(String, Option<Found>)>) -> RevertCapture {
    RevertCapture {
        call_id: "call".to_string(),
        assistant_message_id: messages[1].id,
        history_anchor: history_anchor(messages, messages[1].id, "call").unwrap(),
        files: capture_files(files).unwrap(),
    }
}

#[test]
fn later_changes_survive_a_revert() {
    let service = match revert_plugin(RevertConfig::default()) {
        Ok(service) => service,
        Err(_) => panic!("the default is valid"),
    };
    let messages = history();
    let mut state = RevertState::new();
    state.begin_call(captured(
        &messages,
        vec![
            ("a.txt".to_string(), Some(Found::File(b"old".to_vec()))),
            ("b.txt".to_string(), Some(Found::Missing)),
        ],
    ));
    let capture = state.take_capture("call").unwrap();
    assert!(state.take_capture("call").is_none());
    state
        .end_call(
            &service,
            capture,
            vec![Found::File(b"new".to_vec()), Found::File(b"made".to_vec())],
            9,
            "write",
            1,
        )
        .unwrap();
    let record = state.select(None).unwrap();
    assert_eq!(record.id, 9);
    assert_eq!(record.entries.len(), 2);
    assert_eq!(record.entry_to_restore(0).unwrap().path, "b.txt");
    assert_eq!(record.entry_to_restore(1).unwrap().path, "a.txt");
    assert!(record.entry_to_restore(2).is_none());
    let mut outcome = RevertOutcome::new(record.id);
    let unchanged = airicode::plugins::revert::FileState { contents: Some(b"new".to_vec()) };
    assert_eq!(
        outcome.restore(&record.entries[0], &unchanged),
        Restore::Write(b"old".to_vec())
    );
    let made = airicode::plugins::revert::FileState { contents: Some(b"made".to_vec()) };
    assert_eq!(outcome.restore(&record.entries[1], &made), Restore::Remove);
    let edited = airicode::plugins::revert::FileState { contents: Some(b"edited".to_vec()) };
    assert_eq!(outcome.restore(&record.entries[0], &edited), Restore::Conflict);
    assert_eq!(outcome.restored, vec!["a.txt", "b.txt"]);
    assert_eq!(outcome.conflicts, vec!["a.txt"]);
    assert!(state.select(Some(8)).is_err());
    state.forget(9);
    assert!(state.select(None).is_err());
}

#[test]
fn only_the_newest_records_are_kept() {
    let service = match revert_plugin(RevertConfig { max_records_per_session: 1 }) {
        Ok(service) => service,
        Err(_) => panic!("one record can be kept"),
    };
    assert!(revert_plugin(RevertConfig { max_records_per_session: 0 }).is_err());
    let messages = history();
    let mut state = RevertState::new();
    for id in [1, 2] {
        let capture = captured(
            &messages,
            vec![("a.txt".to_string(), Some(Found::File(b"old".to_vec())))],
        );
        state
            .end_call(&service, capture, vec![Found::Missing], id, "write", 1)
            .unwrap();
    }
    assert!(state.select(Some(1)).is_err());
    assert_eq!(state.select(Some(2)).unwrap().id, 2);
}

#[test]
fn reverting_takes_back_the_history_too() {
    let service = match revert_plugin(RevertConfig::default()) {
        Ok(service) => service,
        Err(_) => panic!("the default is valid"),
    };
    let messages = history();
    let mut state = RevertState::new();
    let capture = captured(
        &messages,
        vec![("a.txt".to_string(), Some(Found::File(b"old".to_vec())))],
    );
    state.end_call(&service, capture, vec![Found::Missing], 3, "write", 1).unwrap();
    let list = [messages[0].id, messages[1].id];
    assert_eq!(
        plan_history(state.select(None).unwrap(), &list).unwrap(),
        HistoryEdit::TruncateAfter(messages[0].id)
    );
    assert!(plan_history(state.select(None).unwrap(), &[messages[0].id]).is_err());
    assert_eq!(parse_optional_record_id(" ").unwrap(), None);
    assert_eq!(
        parse_optional_record_id("00000000-0000-0000-0000-00000000002a").unwrap(),
        Some(42)
    );
    assert!(parse_optional_record_id("x").is_err());
}

#[test]
fn bounds_utf8_output() {
    let mut output = String::new();
    let mut truncated = false;
    bounded::append_bounded(&mut output, "ab\u{e9}cd", 3, &mut truncated);
    assert_eq!(output, "ab");
    assert!(truncated);
}

#[test]
fn bounds_provider_output_on_utf8_boundary() {
    let mut output = String::new();
    let mut truncated = false;
    bounded::append_bounded(&mut output, "ab\u{e9}cd", 3, &mut truncated);
    assert_eq!(output, "ab");
    assert!(truncated);
}

#[test]
fn side_queries_keep_their_limit() {
    let mut output = SideQueryOutput::new();
    output.push(delta("abc"), 4);
    output.push(delta("def"), 4);
    output.push(
        ProviderEvent::Usage {
            usage: Usage { input_tokens: 1, output_tokens: 2, total_tokens: 3 },
        },
        4,
    );
    output.push(ProviderEvent::Finished { reason: FinishReason::Stop }, 4);
    assert_eq!(output.text, "abcd");
    assert!(output.truncated);
    assert_eq!(output.usage.unwrap().total_tokens, 3);
    assert_eq!(output.finish_reason, Some(FinishReason::Stop));
}

#[test]
fn side_queries_are_checked() {
    let command = match sidequery_plugin(SideQueryConfig::new("m".to_string())) {
        Ok(command) => command,
        Err(_) => panic!("the configuration is valid"),
    };
    assert!(command.check("what?").is_ok());
    assert!(command.check("  ").is_err());
    assert_eq!(command.choose_model("p", true, "current").unwrap(), "m");
    assert!(command.choose_model("p", false, "current").is_err());
    let messages = command.messages(" what? ");
    assert_eq!(messages.last().unwrap().role, Role::User);
    let mut config = SideQueryConfig::new("m".to_string());
    config.max_output_bytes = 0;
    assert!(sidequery_plugin(config).is_err());
}

#[test]
fn schema_documents_read_only_mode() {
    let tool = SubagentTool { config: SubagentConfig::new("test".to_string()) };
    assert!(tool.definition().description.contains("read-only"));
    assert!(tool.definition().description.contains("ToolRegistry"));
}

#[test]
fn rejects_exhausted_depth() {
    let config = SubagentConfig::new("test".to_string());
    assert!(config.max_depth > 0);
    assert!(validate_config(&config).is_ok());
}

fn input(depth: usize) -> SubagentInput {
    SubagentInput { prompt: "look".to_string(), system: None, depth }
}

#[test]
fn subagents_refuse_every_tool_call() {
    let tool = match subagents_plugin(SubagentConfig::new("test".to_string())) {
        Ok(tool) => tool,
        Err(_) => panic!("the configuration is valid"),
    };
    assert!(tool.check(&input(0)).is_ok());
    assert!(tool.check(&input(tool.config.max_depth)).is_err());
    let mut run = tool.begin("/project", &input(0), &[]);
    let begun = run.messages.len();
    tool.next_round(&mut run).unwrap();
    let mut buffer = AssistantBuffer::new();
    buffer
        .push(
            ProviderEvent::ToolCallDelta {
                index: 0,
                id: Some("c1".to_string()),
                name: Some("read".to_string()),
                arguments: "{}".to_string(),
            },
            1000,
        )
        .unwrap();
    let answer = buffer.finish().unwrap();
    assert_eq!(answer.calls, vec![("c1".to_string(), "read".to_string())]);
    assert!(matches!(tool.complete_round(&mut run, answer).unwrap(), Round::Again));
    assert_eq!(run.messages.len(), begun + 2);
    let refusal = &run.messages[begun + 1];
    assert_eq!(refusal.role, Role::Tool);
    assert!(matches!(
        &refusal.content[0].content,
        Some(MessagePartContent::ToolResult { result: ToolOutput::Failure { .. }, .. })
    ));
    tool.next_round(&mut run).unwrap();
    let mut buffer = AssistantBuffer::new();
    buffer.push(delta("done"), 1000).unwrap();
    let answer = buffer.finish().unwrap();
    assert!(matches!(tool.complete_round(&mut run, answer).unwrap(), Round::Done));
    assert_eq!(run.output.text, "done");
    assert_eq!(run.output.rounds, 2);
    assert_eq!(run.output.tool_calls, 1);
}

fn facts(length: u64) -> FileFacts {
    FileFacts { symlink: false, file: true, length }
}

fn catalog() -> airicode::plugins::skills::SkillCatalog {
    let resolved = Ok(("/skills".to_string(), true));
    let mut walk = match SkillWalk::new("skills", 100, resolved) {
        Ok(walk) => walk,
        Err(_) => panic!("the root is a directory"),
    };
    assert_eq!(walk.next().unwrap(), Some("/skills".to_string()));
    walk.listed(
        "/skills",
        Ok(vec![
            SkillEntry { name: "b".to_string(), kind: SkillEntryKind::Directory },
            SkillEntry { name: "a".to_string(), kind: SkillEntryKind::Directory },
            SkillEntry { name: "x.txt".to_string(), kind: SkillEntryKind::Other },
        ]),
    )
    .unwrap();
    while let Some(directory) = walk.next().unwrap() {
        let name = directory.rsplit('/').next().unwrap().to_string();
        walk.found(&directory, (name, "does things".to_string())).unwrap();
        walk.listed(&directory, Ok(vec![])).unwrap();
    }
    walk.finish()
}

#[test]
fn skills_are_cataloged_in_order() {
    let catalog = catalog();
    assert_eq!(catalog.skills.len(), 2);
    assert_eq!(catalog.skills[0].name, "a");
    assert_eq!(catalog.skills[1].name, "b");
    let path = catalog.locate("b").unwrap();
    assert_eq!(path, "/skills/b/SKILL.md");
    assert!(catalog.locate("c").is_err());
    assert!(catalog.inspect("b", &path, Ok(facts(100))).is_ok());
    assert!(catalog.inspect("b", &path, Ok(facts(101))).is_err());
    assert!(catalog.check_inside("b", &path, Ok("/elsewhere/SKILL.md".to_string())).is_err());
    assert!(catalog.check_inside("b", &path, Ok("/skills/b/SKILL.md".to_string())).is_ok());
    assert_eq!(catalog.accept("b", &path, Ok(b"text".to_vec())).unwrap(), "text");
    assert!(catalog.accept("b", &path, Ok(vec![0xff])).is_err());
}

#[test]
fn skills_are_selected_by_session() {
    let mut state = skills_plugin(catalog());
    let response = state
        .apply(SessionId(1), SkillsInput::Select { name: "a".to_string() })
        .unwrap();
    assert_eq!(response.selected, vec!["a"]);
    assert_eq!(response.skills.len(), 2);
    assert_eq!(state.selected_by(SessionId(1)), vec!["a"]);
    assert!(state.selected_by(SessionId(2)).is_empty());
    assert!(state
        .apply(SessionId(1), SkillsInput::Select { name: "missing".to_string() })
        .is_err());
    state.apply(SessionId(2), SkillsInput::Clear).unwrap();
    assert_eq!(state.selected_by(SessionId(1)), vec!["a"]);
    state.apply(SessionId(1), SkillsInput::Clear).unwrap();
    assert!(state.selected_by(SessionId(1)).is_empty());
    assert_eq!(state.definition().name, "skills");
}

#[test]
fn skill_files_begin_with_their_head() {
    let content = "---\nname: grep-well\ndescription: Searches\n---\nbody\n";
    assert_eq!(
        read_head("SKILL.md", content).unwrap(),
        ("grep-well".to_string(), "Searches".to_string())
    );
    assert_eq!(
        read_metadata("SKILL.md", Ok(content.as_bytes().to_vec())).unwrap().0,
        "grep-well"
    );
    assert!(read_head("SKILL.md", "name: x\n").is_err());
    assert!(read_metadata("SKILL.md", Err("denied".to_string())).is_err());
    assert!(validate_name("ok-name").is_ok());
    assert!(validate_name("").is_err());
}

#[test]
fn agents_files_are_bounded() {
    let hook = agents_instructions_plugin(AgentsInstructionsConfig {
        max_file_bytes: 4,
        max_total_bytes: 8,
    });
    assert_eq!(hook.limit(), 4);
    assert!(hook.check_limits().is_ok());
    assert_eq!(
        hook.file_in("/p", Ok("/p".to_string())).unwrap(),
        "/p/AGENTS.md"
    );
    assert_eq!(hook.inspect("/p/AGENTS.md", &FileProbe::Missing).unwrap(), false);
    assert_eq!(hook.inspect("/p/AGENTS.md", &FileProbe::Found(facts(4))).unwrap(), true);
    assert!(hook.inspect("/p/AGENTS.md", &FileProbe::Found(facts(5))).is_err());
    assert!(hook.inspect("/p/AGENTS.md", &FileProbe::Failed("no".to_string())).is_err());
    assert_eq!(hook.accept("/p/AGENTS.md", Ok(b"rule".to_vec())).unwrap(), "rule");
    assert!(hook.accept("/p/AGENTS.md", Ok(b"rules".to_vec())).is_err());
    let part = hook.contribute("rule").unwrap();
    assert!(part.content.contains("rule"));
    assert!(hook.contribute("").is_none());
}

#[test]
fn base_instructions_can_be_replaced() {
    let plugin = InstructionBasePlugin::new().with_instruction("be kind".to_string());
    let contribution = plugin.contribute();
    assert_eq!(contribution.text, "be kind");
    assert!(matches!(contribution.priority, ContextPriority::Persistent));
}

#[test]
fn approval_follows_its_policy() {
    let allow = approval_plugin(ApprovalPolicy::Allow);
    assert!(matches!(allow.before_tool_execution(), BeforeHookResult::Continue));
    let deny = approval_plugin(ApprovalPolicy::Deny);
    assert!(matches!(deny.before_tool_execution(), BeforeHookResult::Cancel { .. }));
}

fn commit(sequence: u64) -> SessionCommit {
    SessionCommit {
        sequence,
        commit_id: 5,
        created_at: TimeSeq::from_parts(1, 0),
        mutations: vec![Json::text("change")],
    }
}

#[test]
fn appended_commits_are_read_back() {
    let log = split_log(b"{}\n{}\n");
    assert_eq!(log.lines.len(), 2);
    assert!(log.finished);
    let records = vec![
        Ok(SessionLogRecord::of(&commit(1))),
        Ok(SessionLogRecord::of(&commit(2))),
    ];
    let commits = match load(&log, records) {
        Ok(commits) => commits,
        Err(_) => panic!("the log can be read"),
    };
    assert_eq!(commits.len(), 2);
    assert_eq!(commits[1].sequence, 2);
    assert_eq!(commits[0].mutations, vec![Json::text("change")]);
    assert!(check_append(2, &commit(3)).is_ok());
    assert!(matches!(
        check_append(2, &commit(2)),
        Err(Error::Persistence(m)) if m == "cannot append sequence 2, expected 3"
    ));
    assert_eq!(log_line(b"{}".to_vec()), b"{}\n");
}

#[test]
fn unfinished_lines_are_mended() {
    assert_eq!(recover_partial_tail(b"{}\n", true), TailFix::Nothing);
    assert_eq!(recover_partial_tail(b"{}\n{\"a", false), TailFix::Truncate(3));
    assert_eq!(recover_partial_tail(b"{}\n{}", true), TailFix::AppendNewline);
    assert_eq!(recover_partial_tail(b"", false), TailFix::Truncate(0));
    assert_eq!(recover_partial_tail(b"{\"a", false), TailFix::Truncate(0));
    assert_eq!(recover_partial_tail(b"{}", true), TailFix::Truncate(0));
    let log = split_log(b"{}\n{\"a");
    assert!(!log.finished);
    assert_eq!(log.tail, 3);
    let mut record = SessionLogRecord::of(&commit(1));
    record.schema_version = 2;
    assert!(SessionCommit::from_record(record).is_err());
}

#[test]
fn stores_lie_under_the_data_root() {
    assert_eq!(default_data_root(Some("/data"), Some("/home/u")).unwrap(), "/data");
    assert_eq!(default_data_root(None, Some("/home/u")).unwrap(), "/home/u/.local/share");
    assert!(default_data_root(None, None).is_err());
    assert_eq!(project_hash("/project"), "ea0135bca5e3bd815f5b7b8f");
    assert_eq!(
        JsonlSessionStore::new("/project", "/data").root(),
        "/data/airicode/project-ea0135bca5e3bd815f5b7b8f/sessions"
    );
    let store = JsonlSessionStore::new_at("/data/x".to_string());
    let session = SessionId(42);
    assert_eq!(
        store.path_for(session),
        format!("/data/x/{}.jsonl", session.spelled())
    );
    let names = vec![format!("{}.jsonl", session.spelled()), "notes.txt".to_string()];
    assert_eq!(store.discover(&names).unwrap(), vec![session]);
}

#[test]
fn schemas_leave_no_trace_in_a_configuration() {
    let action = ActionConfig::new(object(vec![]));
    assert_eq!(action.id(), action.id);
    assert_ne!(action.id(), ActionConfig::new(object(vec![])).id());
    assert_ne!(ActionConfigPlugin::default().id, ActionConfigPlugin::default().id);
    assert_eq!(ActionConfigPlugin::default().id.0 >> 76 & 0xf, 4);
    let config = vec![field("model", Json::text("m"))];
    let shown = action.with_schema(config, "http://127.0.0.1:9/s");
    assert_eq!(shown.get_str("$schema"), Some("http://127.0.0.1:9/s"));
    let kept = without_schema(Ok(shown)).unwrap();
    assert!(kept.get("$schema").is_none());
    assert_eq!(kept.get_str("model"), Some("m"));
    assert!(without_schema(Err("bad".to_string())).is_err());
    let edited = read_edited(b"{\"$schema\":\"x\",\"model\":\"n\"}").unwrap();
    assert_eq!(edited, object(vec![field("model", Json::text("n"))]));
    assert!(read_edited(b"[").is_err());
}

#[test]
fn editors_are_started_on_the_file() {
    assert!(chosen_editor(None).is_err());
    assert_eq!(chosen_editor(Some("vi".to_string())).unwrap(), "vi");
    assert_eq!(
        editor_arguments("/c.json"),
        vec!["-c", "exec $EDITOR \"$1\"", "airicode-config-editor", "/c.json"]
    );
    assert!(editor_ended(true, "exit status: 0").is_ok());
    assert!(editor_ended(false, "exit status: 1").is_err());
    assert_eq!(schema_url("127.0.0.1:9"), "http://127.0.0.1:9/schema.json");
    assert!(wants_more(b"GET / HT"));
    assert!(!wants_more(b"GET / HTTP/1.1\r\n\r\n"));
    let missing = respond_schema(b"GET /nothing HTTP/1.1\r\n\r\n", b"{}");
    assert!(missing.starts_with(b"HTTP/1.1 404 Not Found\r\n"));
    assert!(missing.ends_with(b"\r\n\r\nnot found"));
    let found = respond_schema(b"GET /schema.json HTTP/1.1\r\n\r\n", b"{}");
    assert!(found.starts_with(b"HTTP/1.1 200 OK\r\n"));
    assert!(found.ends_with(b"\r\n\r\n{}"));
}

#[test]
fn identifiers_are_spelled_and_read() {
    let id = SessionId(0x1234);
    assert_eq!(id.spelled(), "00000000-0000-0000-0000-000000001234");
    assert_eq!(SessionId::parse(&id.spelled()), Some(id));
    assert_eq!(MessageId::parse("not an identifier"), None);
    assert_ne!(ProjectId(fresh()), ProjectId(fresh()));
}

#[test]
fn summaries_tell_what_they_cover() {
    let plugin = match compaction_plugin(CompactionPluginConfig::default()) {
        Ok(plugin) => plugin,
        Err(_) => panic!("the default is valid"),
    };
    let covered = [
        Message::text(Role::User, "one", "build"),
        Message::text(Role::Assistant, "two", "build"),
    ];
    let asked = plugin.summary_messages(&covered);
    assert_eq!(asked.len(), 4);
    assert_eq!(asked[0].role, Role::System);
    assert_eq!(asked[1].id, covered[0].id);
    let (summary, metadata) = plugin.replacement(&covered, "short");
    assert_eq!(summary.role, Role::System);
    assert_eq!(metadata.get("compaction"), Some(&Json::Bool(true)));
    assert_eq!(
        metadata.get("covered_message_ids"),
        Some(&array(vec![
            Json::text(&covered[0].id.spelled()),
            Json::text(&covered[1].id.spelled()),
        ]))
    );
}

#[test]
fn complaints_quote_what_is_wrong() {
    match validate_name("Bad\n") {
        Err(Error::Plugin(message)) => assert_eq!(message, "invalid skill name \"Bad\\n\""),
        _ => panic!("the name is invalid"),
    }
}
