use airicode::json::Json;
use airicode::plugins::approval::{
    approval_plugin, ApprovalPolicy, BeforeHookResult, APPROVAL_HOOK_ID,
};
use airicode::plugins::compaction::{compaction_plugin, CompactionPluginConfig};
use airicode::plugins::fork::{fork_plugin, ForkConfig, COMMAND_ID as FORK_COMMAND};
use airicode::plugins::instruction_agents::{
    agents_instructions_plugin, AgentsInstructionsConfig,
};
use airicode::plugins::mcp::{mcp_plugin, McpConfig, McpToolAdapter, McpToolDefinition};
use airicode::plugins::registration::{Registration, RegistrationKind};
use airicode::plugins::revert::{revert_plugin, RevertConfig, COMMAND_ID as REVERT_COMMAND};
use airicode::plugins::sandbox_bubblewrap::{bubblewrap_sandbox_plugin, BubblewrapSandboxConfig};
use airicode::plugins::sandbox_container::{
    container_sandbox_plugin, ContainerSandboxConfig, ContainerSandboxRuntime,
};
use airicode::plugins::sandbox_policy::{policy_sandbox_plugin, PolicySandboxConfig};
use airicode::plugins::sidequery::{
    sidequery_plugin, SideQueryConfig, COMMAND_ID as SIDEQUERY_COMMAND,
};
use airicode::plugins::subagents::{subagents_plugin, SubagentConfig};
use airicode::plugins::workdir_gitworktree::WorktreeService;
use airicode::providers::openai::{openai_plugin, OpenAiConfig};
use airicode::providers::openrouter::{openrouter_plugin, OpenRouterConfig};

fn one(kind: RegistrationKind, id: &str) -> Vec<Registration> {
    vec![Registration { kind, id: id.to_string(), priority: 0 }]
}

fn ids(list: &[Registration], kind: RegistrationKind) -> Vec<&str> {
    list.iter().filter(|entry| entry.kind == kind).map(|entry| entry.id.as_str()).collect()
}

#[test]
fn the_approval_plugin_registers_one_hook() {
    let plugin = approval_plugin(ApprovalPolicy::Deny);
    assert_eq!(plugin.id(), "builtin.approval");
    assert_eq!(
        plugin.registrations(),
        one(RegistrationKind::BeforeToolExecution, APPROVAL_HOOK_ID)
    );
    assert_eq!(
        plugin.before_tool_execution(),
        BeforeHookResult::Cancel { reason: "tool execution denied by approval policy".to_string() }
    );
    let plugin = approval_plugin(ApprovalPolicy::Allow);
    assert_eq!(plugin.before_tool_execution(), BeforeHookResult::Continue);
}

#[test]
fn plugin_registers_command_and_both_hooks() {
    let service = match revert_plugin(RevertConfig::default()) {
        Ok(service) => service,
        Err(_) => panic!("the default is valid"),
    };
    let list = service.registrations();
    assert_eq!(ids(&list, RegistrationKind::Command), vec![REVERT_COMMAND]);
    assert_eq!(service.usage(), "/revert [record-id]");
    assert!(ids(&list, RegistrationKind::Tool).is_empty());
    assert!(ids(&list, RegistrationKind::WorkdirLayer).is_empty());
    assert_eq!(
        ids(&list, RegistrationKind::BeforeToolExecution),
        vec!["builtin.revert.capture-preimages"]
    );
    assert_eq!(
        ids(&list, RegistrationKind::AfterToolExecution),
        vec!["builtin.revert.capture-postimages"]
    );
    assert_eq!(list.len(), 3);
    assert!(revert_plugin(RevertConfig { max_records_per_session: 0 }).is_err());
}

#[test]
fn plugin_registers_only_its_fork_command() {
    let command = fork_plugin(ForkConfig { storage_dir: None });
    assert_eq!(command.registrations(), one(RegistrationKind::Command, FORK_COMMAND));
    assert_eq!(command.usage(), "/fork [message-id]");
}

#[test]
fn plugin_registers_only_its_isolated_command() {
    let command = match sidequery_plugin(SideQueryConfig::new("test".to_string())) {
        Ok(command) => command,
        Err(_) => panic!("the configuration is valid"),
    };
    assert_eq!(command.registrations(), one(RegistrationKind::Command, SIDEQUERY_COMMAND));
    assert!(command.description().contains("tool-free"));
}

#[test]
fn sandbox_bubblewrap_plugin_registers_only_one_workdir_layer() {
    let policy = match bubblewrap_sandbox_plugin(BubblewrapSandboxConfig::default()) {
        Ok(policy) => policy,
        Err(_) => panic!("the default is valid"),
    };
    assert_eq!(
        policy.registrations(),
        one(RegistrationKind::WorkdirLayer, "builtin.sandbox-bubblewrap.workdir")
    );
}

#[test]
fn sandbox_container_plugin_registers_only_one_workdir_layer() {
    let policy = match container_sandbox_plugin(ContainerSandboxConfig {
        runtime: ContainerSandboxRuntime::Docker,
        image: "rust:latest".to_string(),
        path_rules: vec![],
        process_rules: vec![],
        writable_paths: vec![],
        default_allow: false,
        allow_network: false,
    }) {
        Ok(policy) => policy,
        Err(_) => panic!("the configuration is valid"),
    };
    assert_eq!(
        policy.registrations(),
        one(RegistrationKind::WorkdirLayer, "builtin.sandbox-container.workdir")
    );
}

#[test]
fn sandbox_policy_plugin_registers_only_one_workdir_layer() {
    let policy = match policy_sandbox_plugin(PolicySandboxConfig::default()) {
        Ok(policy) => policy,
        Err(_) => panic!("the default is valid"),
    };
    assert_eq!(
        policy.registrations(),
        one(RegistrationKind::WorkdirLayer, "builtin.sandbox-policy.workdir")
    );
}

#[test]
fn plugin_registers_commands_not_tools_and_can_be_omitted() {
    let service = match WorktreeService::new("/repo/app", "/repo", "/repo/.git", "/data") {
        Ok(service) => service,
        Err(_) => panic!("the project lies in the repository"),
    };
    let list = service.registrations();
    assert_eq!(ids(&list, RegistrationKind::WorkdirLayer), vec!["builtin.git-worktree"]);
    assert!(ids(&list, RegistrationKind::Tool).is_empty());
    assert_eq!(
        ids(&list, RegistrationKind::Command),
        vec![
            "builtin.git-worktree.apply",
            "builtin.git-worktree.discard",
            "builtin.git-worktree.revert",
        ]
    );
    let priorities: Vec<i32> = list.iter().map(|entry| entry.priority).collect();
    assert_eq!(priorities, vec![-100, 100, -100, -100, 0, 0, 0]);
}

#[test]
fn provider_plugins_register_independently() {
    let openai = openai_plugin(OpenAiConfig::new("openai-secret".to_string()));
    let openrouter = openrouter_plugin(OpenRouterConfig::new("openrouter-secret".to_string()));
    assert_eq!(openai.registrations(), one(RegistrationKind::Provider, "openai"));
    assert_eq!(openrouter.registrations(), one(RegistrationKind::Provider, "openrouter"));
}

#[test]
fn other_plugins_register_what_they_offer() {
    let compaction = match compaction_plugin(CompactionPluginConfig::default()) {
        Ok(plugin) => plugin,
        Err(_) => panic!("the default is valid"),
    };
    assert_eq!(
        compaction.registrations(),
        one(
            RegistrationKind::BeforeProviderRequest,
            "builtin.compaction.before-provider-request"
        )
    );
    let agents = agents_instructions_plugin(AgentsInstructionsConfig::default());
    assert_eq!(
        agents.registrations(),
        one(RegistrationKind::ContextContribution, "builtin.instructions.agents.context")
    );
    let subagents = match subagents_plugin(SubagentConfig::new("m".to_string())) {
        Ok(tool) => tool,
        Err(_) => panic!("the configuration is valid"),
    };
    assert_eq!(
        subagents.registrations(),
        one(RegistrationKind::Tool, "builtin.subagents.subagent")
    );
    let mcp = mcp_plugin(McpConfig::new("docs".to_string(), "docs-server".to_string()));
    assert!(mcp.registrations(&[]).is_empty());
    let adapter = McpToolAdapter {
        exposed_name: "mcp__docs__search".to_string(),
        remote: McpToolDefinition {
            name: "search".to_string(),
            description: String::new(),
            input_schema: Json::Null,
        },
    };
    assert_eq!(
        mcp.registrations(&[adapter]),
        one(RegistrationKind::Tool, "external.mcp.mcp__docs__search")
    );
}
