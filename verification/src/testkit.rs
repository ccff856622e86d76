//! Stand-ins for a provider and a working directory.
use crate::model;
use crate::model::{Error, FinishReason, ProviderEvent};
use crate::providers::openai_compatible::Model;
use crate::text;
use vstd::prelude::*;

verus! {

/// A provider with one prepared answer, or with none until a gate opens.
pub struct StubProvider {
    pub id: String,
    pub response: Option<String>,
    /// Whether an answer waits for a gate.
    pub gated: bool,
}

/// The plugin that offers the provider.
pub struct StubProviderPlugin {
    pub id: String,
    pub provider: StubProvider,
}

/// Makes the plugin.
pub fn stub_provider_plugin(provider: StubProvider) -> (r: StubProviderPlugin)
    ensures
        r.id@ == "test-provider-"@ + provider.id@,
        r.provider == provider,
{
    StubProviderPlugin { id: text::cat2("test-provider-", provider.id.as_str()), provider }
}

impl StubProvider {
    /// A provider that answers with a text.
    pub fn responding(id: String, text: String) -> (r: Self)
        ensures
            r.id == id,
            r.response == Some(text),
            !r.gated,
    {
        StubProvider { id, response: Some(text), gated: false }
    }

    /// A provider that waits for a gate and then has no answer.
    pub fn blocked(id: String) -> (r: Self)
        ensures
            r.id == id,
            r.response is None,
            r.gated,
    {
        StubProvider { id, response: None, gated: true }
    }

    /// The models that the provider offers.
    pub fn get_models(&self) -> (r: Vec<Model>)
        ensures
            r@.len() == 1,
            r@[0].id@ == "test"@,
            r@[0].display_name@ == "Test"@,
    {
        let mut models: Vec<Model> = Vec::new();
        models.push(Model { id: text::owned("test"), display_name: text::owned("Test") });
        models
    }

    /// The events of the prepared answer.
    pub fn answer(&self) -> (r: model::Result<Vec<ProviderEvent>>)
        ensures
            match self.response {
                Some(t) => r is Ok && model::event_views(r->Ok_0@) == seq![
                    model::EventView::TextDelta(t@),
                    model::EventView::Finished(model::FinishView::Stop),
                ],
                None => r is Err && r->Err_0@ == model::ErrorView::Provider(
                    "stub has no response"@,
                ),
            },
    {
        match &self.response {
            None => Err(Error::Provider(text::owned("stub has no response"))),
            Some(t) => {
                let mut events: Vec<ProviderEvent> = Vec::new();
                events.push(ProviderEvent::TextDelta { text: text::owned(t.as_str()) });
                events.push(ProviderEvent::Finished { reason: FinishReason::Stop });
                proof {
                    assert(model::event_views(events@) =~= seq![
                        model::EventView::TextDelta(t@),
                        model::EventView::Finished(model::FinishView::Stop),
                    ]);
                }
                Ok(events)
            },
        }
    }
}

/// A working directory in which nothing can be done.
pub struct StubWorkdir {
    pub root: String,
}

impl StubWorkdir {
    pub fn new(root: String) -> (r: Self)
        ensures
            r.root == root,
    {
        StubWorkdir { root }
    }

    pub fn root(&self) -> (r: &str)
        ensures
            r@ == self.root@,
    {
        self.root.as_str()
    }

    /// How each operation is refused.
    pub fn refusal(&self) -> (r: Error)
        ensures
            r@ == model::ErrorView::Workdir("not configured"@),
    {
        Error::Workdir(text::owned("not configured"))
    }
}

} // verus!
