//! The agent's plugins and tools.
pub mod action_config;
pub mod approval;
pub mod compaction;
pub mod file_tools;
pub mod fork;
pub mod git_model;
pub mod instruction_agents;
pub mod instruction_base;
pub mod mcp;
pub mod mcp_frame;
pub mod persistence;
pub mod provider_openai;
pub mod registration;
pub mod revert;
pub mod sandbox;
pub mod sandbox_bubblewrap;
pub mod sandbox_container;
pub mod sandbox_policy;
pub mod sidequery;
pub mod skills;
pub mod subagents;
pub mod tool_delete;
pub mod tool_find;
pub mod tool_find_file;
pub mod tool_fs_delete;
pub mod tool_fs_rename;
pub mod tool_grep;
pub mod tool_patch;
pub mod tool_patch_apply_patch;
pub mod tool_patch_hashline;
pub mod tool_question;
pub mod tool_read;
pub mod tool_rename;
pub mod tool_shell;
pub mod tool_todo;
pub mod tool_webfetch;
pub mod tool_write;
pub mod workdir_gitworktree;
pub mod worktree_job;
