//! Runs a command of the shell.
use crate::ids;
use crate::ids::{fresh, PluginId, ToolId};
use crate::json::Json;
use crate::model;
use crate::model::{
    CommandOutput, CommandSpec, FreeformParser, NoteContent, ToolDefinition, ToolInput,
    ToolOutput,
};
use crate::text;
use vstd::prelude::*;

verus! {

pub const DESCRIPTION: &'static str = "Execute raw shell command text in the current workdir. Pass a string, not a JSON object. The command runs through the Workdir abstraction so its root, worktree, and sandbox layers are respected. The result includes the exit status and captured stdout/stderr; a non-zero exit status is a tool failure.";

/// Runs commands of the shell.
pub struct ToolShell {
    pub id: ToolId,
    pub max_output_bytes: usize,
}

impl Default for ToolShell {
    fn default() -> (r: Self)
        ensures
            ids::is_random(r.id.0),
            r.max_output_bytes == 256 * 1024,
    {
        ToolShell::new()
    }
}

/// What a command printed, as it is shown.
pub open spec fn shown_output(stdout: Seq<char>, stderr: Seq<char>, truncated: bool) -> Seq<char> {
    let both = if stdout.len() > 0 && stderr.len() > 0 {
        stdout + "\n"@ + stderr
    } else {
        stdout + stderr
    };
    if truncated {
        both + "\n[output truncated]"@
    } else {
        both
    }
}

/// How an exit status is shown.
pub open spec fn exit_text(status: Option<i32>) -> Seq<char> {
    match status {
        Some(n) => text::signed_decimal(n as int),
        None => "signal"@,
    }
}

/// The answer for a command that ran.
pub open spec fn answer(status: Option<i32>, stdout: Seq<char>, stderr: Seq<char>, truncated: bool) -> Seq<
    char,
> {
    "exit "@ + exit_text(status) + "\n"@ + shown_output(stdout, stderr, truncated)
}

impl ToolShell {
    pub fn new() -> (r: Self)
        ensures
            ids::is_random(r.id.0),
            r.max_output_bytes == 256 * 1024,
    {
        ToolShell { id: ToolId(fresh()), max_output_bytes: 256 * 1024 }
    }

    pub fn with_max_output(self, max: usize) -> (r: Self)
        ensures
            r.id == self.id,
            r.max_output_bytes == max,
    {
        ToolShell { id: self.id, max_output_bytes: max }
    }

    pub fn name(&self) -> (r: &'static str)
        ensures
            r@ == "shell"@,
    {
        "shell"
    }

    /// How a command is run; `windows` tells the system.
    pub fn command(&self, command: &str, windows: bool) -> (r: CommandSpec)
        ensures
            r@ == (model::CommandView {
                program: if windows {
                    "cmd"@
                } else {
                    "sh"@
                },
                args: seq![
                    if windows {
                        "/C"@
                    } else {
                        "-c"@
                    },
                    command@,
                ],
                cwd: None,
                env: Seq::empty(),
                max_output_bytes: Some(self.max_output_bytes),
            }),
    {
        let mut args = text::no_texts();
        text::push_text(
            &mut args,
            if windows {
                "/C"
            } else {
                "-c"
            },
        );
        text::push_text(&mut args, command);
        proof {
            let flag = if windows {
                "/C"@
            } else {
                "-c"@
            };
            assert(text::texts(args@) =~= seq![flag, command@]);
        }
        CommandSpec::plain(
            if windows {
                "cmd"
            } else {
                "sh"
            },
            args,
            Some(self.max_output_bytes),
        )
    }

    /// The answer for a command that could not be run.
    pub fn failed(&self, command: &str, message: String) -> (r: (ToolOutput, NoteContent))
        ensures
            r.0@ == model::OutputView::Failure(message@),
            r.1@ == model::NoteView::Alert("# "@ + command@ + "\n\n"@ + message@),
    {
        let shown = text::cat4("# ", command, "\n\n", message.as_str());
        (ToolOutput::Failure { content: message }, NoteContent::Alert { content: shown })
    }

    /// The answer for a command that ran: a success where its status is zero.
    pub fn show(&self, command: &str, output: &CommandOutput) -> (r: (ToolOutput, NoteContent))
        ensures
            ({
                let content = answer(
                    output.status,
                    output.stdout@,
                    output.stderr@,
                    output.truncated,
                );
                let shown = "# "@ + command@ + "\n\n$ "@ + command@ + "\n\n"@ + content;
                if output.status == Some(0i32) {
                    r.0@ == model::OutputView::Success(content) && r.1@ == model::NoteView::Info(shown)
                } else {
                    r.0@ == model::OutputView::Failure(content) && r.1@ == model::NoteView::Alert(
                        shown,
                    )
                }
            }),
    {
        let mut printed = text::owned(output.stdout.as_str());
        if !output.stderr.as_str().is_empty() {
            if !printed.as_str().is_empty() {
                printed.push_str("\n");
            }
            printed.push_str(output.stderr.as_str());
        }
        proof {
            if output.stderr@.len() == 0 {
                assert(output.stdout@ + output.stderr@ =~= output.stdout@);
            } else if output.stdout@.len() == 0 {
                assert(output.stdout@ + output.stderr@ =~= printed@);
            }
        }
        if output.truncated {
            printed.push_str("\n[output truncated]");
        }
        let status = match output.status {
            Some(n) => text::signed_text(n as i64),
            None => text::owned("signal"),
        };
        let content = text::cat4("exit ", status.as_str(), "\n", printed.as_str());
        let head = text::cat5("# ", command, "\n\n$ ", command, "\n\n");
        let shown = text::cat2(head.as_str(), content.as_str());
        let succeeded = match output.status {
            Some(n) => n == 0,
            None => false,
        };
        if succeeded {
            (ToolOutput::Success { content }, NoteContent::Info { content: shown })
        } else {
            (ToolOutput::Failure { content }, NoteContent::Alert { content: shown })
        }
    }
}

/// The plugin that offers the tool.
pub struct ToolShellPlugin {
    pub id: PluginId,
    pub tool: ToolShell,
}

impl ToolShellPlugin {
    pub fn new() -> (r: Self)
        ensures
            ids::is_random(r.id.0),
            ids::is_random(r.tool.id.0),
            r.tool.max_output_bytes == 256 * 1024,
    {
        ToolShellPlugin { id: PluginId(fresh()), tool: ToolShell::new() }
    }

    /// The tool that the plugin offers: the same one each time.
    pub fn tool(&self) -> (r: &ToolShell)
        ensures
            *r == self.tool,
    {
        &self.tool
    }

    pub fn name(&self) -> (r: &'static str)
        ensures
            r@ == "tool_shell"@,
    {
        "tool_shell"
    }
}

impl ToolShell {
    /// What the model gave the tool, which takes text and no object.
    pub fn input<'a>(&self, input: &'a ToolInput) -> (r: model::Result<&'a str>)
        ensures
            match *input {
                ToolInput::Text(written) => r is Ok && r->Ok_0@ == written@,
                ToolInput::Json(_) => r is Err && r->Err_0@ == model::ErrorView::Tool(
                    "shell input must be text"@,
                ),
            },
    {
        proof {
            reveal_strlit("shell");
            reveal_strlit(" input must be text");
            reveal_strlit("shell input must be text");
            assert("shell"@ + " input must be text"@ =~= "shell input must be text"@);
        }
        input.text("shell")
    }

    /// How the tool is described to a provider: what the model writes is the
    /// command as it stands. `schema` is that of the command.
    pub fn definition(&self, schema: Json) -> (r: ToolDefinition)
        ensures
            r.name@ == "shell"@,
            r.description@ == DESCRIPTION@,
            r.schema == schema,
            r.freeform == Some(FreeformParser::Command),
    {
        ToolDefinition {
            name: text::owned("shell"),
            description: text::owned(DESCRIPTION),
            schema,
            freeform: Some(FreeformParser::Command),
        }
    }
}

/// The answer to a command tells how it ended and holds all that it printed, the output
/// before the errors; whether something was cut off stands at its end.
pub proof fn law_answers_hold_the_output(
    status: Option<i32>,
    stdout: Seq<char>,
    stderr: Seq<char>,
)
    ensures
        status matches Some(n) ==> text::starts_with(
            answer(status, stdout, stderr, false),
            "exit "@ + text::signed_decimal(n as int) + "\n"@,
        ),
        status is None ==> text::starts_with(
            answer(status, stdout, stderr, false),
            "exit signal\n"@,
        ),
        exists|i: int, j: int|
            text::matches_at(answer(status, stdout, stderr, false), stdout, i) && text::matches_at(
                answer(status, stdout, stderr, false),
                stderr,
                j,
            ) && i + stdout.len() <= j && j + stderr.len() == answer(
                status,
                stdout,
                stderr,
                false,
            ).len(),
        answer(status, stdout, stderr, true) == answer(status, stdout, stderr, false)
            + "\n[output truncated]"@,
{
    let all = answer(status, stdout, stderr, false);
    let head = "exit "@ + exit_text(status) + "\n"@;
    assert(all.subrange(0, head.len() as int) =~= head);
    reveal_strlit("exit ");
    reveal_strlit("signal");
    reveal_strlit("\n");
    reveal_strlit("exit signal\n");
    if status is None {
        assert(head =~= "exit signal\n"@);
    }
    let i = head.len() as int;
    let j = all.len() - stderr.len();
    assert(all.subrange(i, i + stdout.len()) =~= stdout);
    assert(all.subrange(j, j + stderr.len()) =~= stderr);
    assert(text::matches_at(all, stdout, i));
    assert(text::matches_at(all, stderr, j));
    assert(answer(status, stdout, stderr, true) =~= all + "\n[output truncated]"@);
}

} // verus!
