//! The instruction with which every conversation starts.
use crate::ids;
use crate::ids::{fresh, PluginId};
use crate::json;
use crate::json::{Json, ObjectBuilder};
use crate::model::{ContextContribution, ContextPriority};
use crate::text;
use vstd::prelude::*;

verus! {

pub const DEFAULT_BASE_INSTRUCTION: &'static str = "You are AiriCode, a careful coding agent. Inspect the workspace before editing, use the provided tools, and report verification results clearly.";

/// The plugin that gives the instruction.
pub struct InstructionBasePlugin {
    pub id: PluginId,
    pub instruction: String,
}

impl Default for InstructionBasePlugin {
    fn default() -> (r: Self)
        ensures
            ids::is_random(r.id.0),
            r.instruction@ == DEFAULT_BASE_INSTRUCTION@,
    {
        InstructionBasePlugin::new()
    }
}

impl InstructionBasePlugin {
    pub fn new() -> (r: Self)
        ensures
            ids::is_random(r.id.0),
            r.instruction@ == DEFAULT_BASE_INSTRUCTION@,
    {
        InstructionBasePlugin {
            id: PluginId(fresh()),
            instruction: text::owned(DEFAULT_BASE_INSTRUCTION),
        }
    }

    pub fn with_instruction(self, instruction: String) -> (r: Self)
        ensures
            r.id == self.id,
            r.instruction == instruction,
    {
        InstructionBasePlugin { id: self.id, instruction }
    }

    pub fn name(&self) -> (r: &'static str)
        ensures
            r@ == "instruction_base"@,
    {
        "instruction_base"
    }

    /// How the configuration is described.
    pub fn config_schema(&self) -> (r: Json)
        ensures
            r@ == json::JsonView::Object(
                seq![
                    ("type"@, json::JsonView::Text("object"@)),
                    (
                        "properties"@,
                        json::JsonView::Object(seq![("instruction"@, json::string_type())]),
                    ),
                ],
            ),
    {
        let properties = ObjectBuilder::new().with("instruction", json::string_schema());
        let ghost shown = properties@;
        let fields = ObjectBuilder::new().with("type", Json::text("object")).with(
            "properties",
            properties.done(),
        );
        proof {
            assert(shown =~= seq![("instruction"@, json::string_type())]);
            assert(fields@ =~= seq![
                ("type"@, json::JsonView::Text("object"@)),
                (
                    "properties"@,
                    json::JsonView::Object(seq![("instruction"@, json::string_type())]),
                ),
            ]);
        }
        fields.done()
    }

    /// What the plugin contributes to a conversation.
    pub fn contribute(&self) -> (r: ContextContribution)
        ensures
            r.priority == ContextPriority::Persistent,
            r.text@ == self.instruction@,
            r.metadata@.len() == 0,
    {
        ContextContribution {
            priority: ContextPriority::Persistent,
            text: text::owned(self.instruction.as_str()),
            metadata: Vec::new(),
        }
    }
}

} // verus!
