//! The bar above the messages.
use crate::ids;
use crate::ids::ProviderId;
use crate::model::Usage;
use crate::text;
use vstd::prelude::*;

verus! {

/// A model of a provider.
#[derive(Clone, Debug, PartialEq, Eq)]
pub struct ModelRef {
    pub provider_id: ProviderId,
    pub model_id: String,
}

#[derive(Clone, Debug, PartialEq, Eq)]
pub struct StatusBarState {
    pub title: String,
    pub selected_model: Option<ModelRef>,
    pub usage: Option<Usage>,
    pub status: String,
}

impl Default for StatusBarState {
    fn default() -> (r: Self)
        ensures
            r.title@.len() == 0,
            r.selected_model is None,
            r.usage is None,
            r.status@.len() == 0,
    {
        StatusBarState {
            title: String::new(),
            selected_model: None,
            usage: None,
            status: String::new(),
        }
    }
}

/// How a model is called.
pub open spec fn model_text(selected: Option<ModelRef>) -> Seq<char> {
    match selected {
        Some(m) => ids::uuid_spelling(m.provider_id.0) + ":"@ + m.model_id@,
        None => "no model"@,
    }
}

/// How the tokens are told.
pub open spec fn usage_text(usage: Option<Usage>) -> Seq<char> {
    match usage {
        Some(u) => "tokens "@ + text::decimal(u.total_tokens as nat),
        None => "tokens -"@,
    }
}

impl StatusBarState {
    /// How the selected model is called.
    pub fn model_label(&self) -> (r: String)
        ensures
            r@ == model_text(self.selected_model),
    {
        match &self.selected_model {
            Some(m) => {
                let id = ids::spell_uuid(m.provider_id.0);
                text::cat3(id.as_str(), ":", m.model_id.as_str())
            },
            None => text::owned("no model"),
        }
    }

    /// What the bar shows.
    pub fn text(&self) -> (r: String)
        ensures
            r@ == self.title@ + " | "@ + model_text(self.selected_model) + " | "@ + usage_text(
                self.usage,
            ) + " | "@ + self.status@,
    {
        let usage = match &self.usage {
            Some(u) => {
                let count = text::decimal_text(u.total_tokens as u128);
                text::cat2("tokens ", count.as_str())
            },
            None => text::owned("tokens -"),
        };
        let label = self.model_label();
        let first = text::cat4(self.title.as_str(), " | ", label.as_str(), " | ");
        let whole = text::cat4(first.as_str(), usage.as_str(), " | ", self.status.as_str());
        proof {
            assert(whole@ =~= self.title@ + " | "@ + model_text(self.selected_model) + " | "@
                + usage_text(self.usage) + " | "@ + self.status@);
        }
        whole
    }
}

/// The status tells which model answers and how many tokens were used in all.
pub proof fn law_the_status_tells_model_and_usage(selected: ModelRef, usage: Usage)
    ensures
        model_text(None) == "no model"@,
        model_text(Some(selected)) == ids::uuid_spelling(selected.provider_id.0) + ":"@
            + selected.model_id@,
        usage_text(None) == "tokens -"@,
        usage_text(Some(usage)) == "tokens "@ + text::decimal(usage.total_tokens as nat),
{
}

} // verus!
