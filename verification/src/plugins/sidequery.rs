//! A single question to the provider, apart from the conversation and without
//! tools.
use crate::bounded;
use crate::model;
use crate::model::{
    Error, FinishReason, Message, ProviderEvent, ProviderMode, ProviderRequest, Role, Usage,
};
use crate::plugins::registration;
use crate::plugins::registration::{Registration, RegistrationKind, RegistrationView};
use crate::text;
use vstd::prelude::*;

verus! {

pub const PLUGIN_ID: &'static str = "builtin.sidequery";

pub const COMMAND_ID: &'static str = "builtin.sidequery.query";

#[derive(Clone, Debug, PartialEq, Eq)]
pub struct SideQueryConfig {
    /// Uses the current turn's model when unset.
    pub model: Option<String>,
    pub system: Option<String>,
    pub max_output_bytes: usize,
    /// How long a query may take, in nanoseconds.
    pub timeout_nanos: u128,
}

impl SideQueryConfig {
    pub fn new(model: String) -> (r: Self)
        ensures
            r.model == Some(model),
            r.system is None,
            r.max_output_bytes == 128 * 1024,
            r.timeout_nanos == 60_000_000_000,
    {
        SideQueryConfig {
            model: Some(model),
            system: None,
            max_output_bytes: 128 * 1024,
            timeout_nanos: 60_000_000_000,
        }
    }
}

pub open spec fn is_valid(config: SideQueryConfig) -> bool {
    &&& config.model matches Some(m) ==> !text::is_blank(m@)
    &&& config.max_output_bytes > 0
    &&& config.timeout_nanos > 0
}

fn blank_model(model: &Option<String>) -> (r: bool)
    ensures
        r == (*model matches Some(m) && text::is_blank(m@)),
{
    match model {
        Some(m) => text::blank(m.as_str()),
        None => false,
    }
}

/// Checks a configuration.
pub fn validate_config(config: &SideQueryConfig) -> (r: model::Result<()>)
    ensures
        r is Ok == is_valid(*config),
        r matches Err(e) ==> e@ == model::ErrorView::Plugin("invalid sidequery configuration"@),
{
    if blank_model(&config.model) || config.max_output_bytes == 0 || config.timeout_nanos == 0 {
        return Err(Error::Plugin(text::owned("invalid sidequery configuration")));
    }
    Ok(())
}

/// The command of the plugin.
pub struct SideQueryCommand {
    pub config: SideQueryConfig,
}

/// Makes the plugin, where its configuration is usable.
pub fn sidequery_plugin(config: SideQueryConfig) -> (r: model::Result<SideQueryCommand>)
    ensures
        r is Ok == is_valid(config),
        r matches Ok(c) ==> c.config == config,
        r matches Err(e) ==> e@ == model::ErrorView::Plugin("invalid sidequery configuration"@),
{
    match validate_config(&config) {
        Ok(()) => Ok(SideQueryCommand { config }),
        Err(e) => Err(e),
    }
}

/// The answer to a query on its way.
pub struct SideQueryOutput {
    pub text: String,
    pub truncated: bool,
    pub finish_reason: Option<FinishReason>,
    pub usage: Option<Usage>,
}

pub ghost struct QueryView {
    pub text: Seq<char>,
    pub truncated: bool,
    pub finish_reason: Option<model::FinishView>,
    pub usage: Option<Usage>,
}

impl View for SideQueryOutput {
    type V = QueryView;

    open spec fn view(&self) -> QueryView {
        QueryView {
            text: self.text@,
            truncated: self.truncated,
            finish_reason: match self.finish_reason {
                Some(r) => Some(r@),
                None => None,
            },
            usage: self.usage,
        }
    }
}

/// What an event adds to an answer. Reasoning and tool calls are passed over.
pub open spec fn after_event(output: QueryView, event: model::EventView, limit: nat) -> QueryView {
    match event {
        model::EventView::TextDelta(t) => QueryView {
            text: bounded::extended(output.text, t, limit),
            truncated: output.truncated || bounded::overflows(output.text, t, limit),
            ..output
        },
        model::EventView::Usage(usage) => QueryView { usage: Some(usage), ..output },
        model::EventView::Finished(reason) => QueryView { finish_reason: Some(reason), ..output },
        _ => output,
    }
}

/// What a sequence of events adds to an answer.
pub open spec fn after_events(output: QueryView, events: Seq<model::EventView>, limit: nat) -> QueryView
    decreases events.len(),
{
    if events.len() == 0 {
        output
    } else {
        after_event(after_events(output, events.drop_last(), limit), events.last(), limit)
    }
}

/// Whatever the provider sends, the answer keeps to its limit.
pub proof fn law_answers_keep_the_limit(
    output: QueryView,
    events: Seq<model::EventView>,
    limit: nat,
)
    requires
        text::utf8_len(output.text) <= limit,
    ensures
        text::utf8_len(after_events(output, events, limit).text) <= limit,
    decreases events.len(),
{
    if events.len() > 0 {
        law_answers_keep_the_limit(output, events.drop_last(), limit);
        let before = after_events(output, events.drop_last(), limit);
        if let model::EventView::TextDelta(t) = events.last() {
            bounded::law_bounded_text_keeps_its_limit(before.text, t, limit);
        }
    }
}

impl SideQueryOutput {
    pub fn new() -> (r: Self)
        ensures
            r@ == (QueryView {
                text: Seq::empty(),
                truncated: false,
                finish_reason: None,
                usage: None,
            }),
    {
        SideQueryOutput {
            text: String::new(),
            truncated: false,
            finish_reason: None,
            usage: None,
        }
    }

    /// Takes in one event of the provider.
    pub fn push(&mut self, event: ProviderEvent, limit: usize)
        ensures
            final(self)@ == after_event(old(self)@, event@, limit as nat),
    {
        match event {
            ProviderEvent::TextDelta { text } => bounded::append_bounded(
                &mut self.text,
                text.as_str(),
                limit,
                &mut self.truncated,
            ),
            ProviderEvent::Usage { usage } => {
                self.usage = Some(usage);
            },
            ProviderEvent::Finished { reason } => {
                self.finish_reason = Some(reason);
            },
            _ => {},
        }
    }
}

/// What a query says: the system prompt, where there is one, and the prompt of the
/// user.
pub open spec fn asked(system: Option<Seq<char>>, prompt: Seq<char>) -> Seq<
    (Role, Seq<model::PartView>),
> {
    match system {
        Some(s) => if s.len() == 0 {
            seq![model::one_text(Role::User, prompt)]
        } else {
            seq![model::one_text(Role::System, s), model::one_text(Role::User, prompt)]
        },
        None => seq![model::one_text(Role::User, prompt)],
    }
}

/// The model that answers: the configured one, or that of the current turn.
pub open spec fn answering(configured: Option<Seq<char>>, current: Seq<char>) -> Seq<char> {
    match configured {
        Some(m) => m,
        None => current,
    }
}

impl SideQueryCommand {
    pub fn name(&self) -> (r: &'static str)
        ensures
            r@ == "sidequery"@,
    {
        "sidequery"
    }

    pub fn description(&self) -> (r: &'static str)
        ensures
            r@
                == "Run an isolated, tool-free provider query. The query cannot modify the current conversation or workdir."@,
    {
        "Run an isolated, tool-free provider query. The query cannot modify the current conversation or workdir."
    }

    pub fn usage(&self) -> (r: &'static str)
        ensures
            r@ == "/sidequery <prompt>"@,
    {
        "/sidequery <prompt>"
    }

    /// Checks the prompt of a query.
    pub fn check(&self, arguments: &str) -> (r: model::Result<()>)
        ensures
            r is Ok == !text::is_blank(arguments@),
            r matches Err(e) ==> e@ == model::ErrorView::Plugin("usage: /sidequery <prompt>"@),
    {
        if text::blank(arguments) {
            return Err(Error::Plugin(text::owned("usage: /sidequery <prompt>")));
        }
        Ok(())
    }

    /// The model that answers: the configured one, or that of the current turn.
    /// The provider of the turn has to be there.
    pub fn choose_model(&self, provider: &str, registered: bool, current: &str) -> (r: model::Result<
        String,
    >)
        ensures
            ({
                let chosen = answering(text::opt_text(self.config.model), current@);
                if !registered {
                    r is Err && r->Err_0@ == model::ErrorView::Provider(
                        "current provider "@ + provider@ + " is not registered"@,
                    )
                } else if text::is_blank(chosen) {
                    r is Err && r->Err_0@ == model::ErrorView::Provider(
                        "sidequery model may not be empty"@,
                    )
                } else {
                    r is Ok && r->Ok_0@ == chosen
                }
            }),
    {
        if !registered {
            return Err(
                Error::Provider(text::cat3("current provider ", provider, " is not registered")),
            );
        }
        let chosen = match &self.config.model {
            Some(m) => text::owned(m.as_str()),
            None => text::owned(current),
        };
        if text::blank(chosen.as_str()) {
            return Err(Error::Provider(text::owned("sidequery model may not be empty")));
        }
        Ok(chosen)
    }

    /// The messages of a query: the system prompt, where there is one, and the
    /// prompt of the user. Nothing of the conversation is among them.
    pub fn messages(&self, prompt: &str) -> (r: Vec<Message>)
        ensures
            model::all_said(model::message_views(r@)) == asked(
                text::opt_text(self.config.system),
                prompt@,
            ),
    {
        let mut list: Vec<Message> = Vec::new();
        proof {
            assert(model::message_views(list@) =~= Seq::empty());
        }
        if let Some(system) = &self.config.system {
            if !system.as_str().is_empty() {
                model::push_message(&mut list, Message::text(Role::System, system.as_str(), ""));
            }
        }
        model::push_message(&mut list, Message::text(Role::User, prompt, ""));
        proof {
            let all = model::message_views(list@);
            assert(model::all_said(all) =~= asked(text::opt_text(self.config.system), prompt@));
        }
        list
    }

    /// Starts a query: the one request that is sent, or why none is. `cancelled` says
    /// whether the query is given up already, and `registered` whether the provider of
    /// the current turn is there.
    pub fn start(
        &self,
        arguments: &str,
        cancelled: bool,
        provider: &str,
        registered: bool,
        current: &str,
    ) -> (r: model::Result<ProviderRequest>)
        ensures
            ({
                let chosen = answering(text::opt_text(self.config.model), current@);
                if text::is_blank(arguments@) {
                    r is Err && r->Err_0@ == model::ErrorView::Plugin("usage: /sidequery <prompt>"@)
                } else if cancelled {
                    r is Err && r->Err_0@ == model::ErrorView::Cancelled
                } else if !registered {
                    r is Err && r->Err_0@ == model::ErrorView::Provider(
                        "current provider "@ + provider@ + " is not registered"@,
                    )
                } else if text::is_blank(chosen) {
                    r is Err && r->Err_0@ == model::ErrorView::Provider(
                        "sidequery model may not be empty"@,
                    )
                } else {
                    &&& r is Ok
                    &&& r->Ok_0.mode == ProviderMode::SideQuery
                    &&& r->Ok_0.model@ == chosen
                    &&& model::stands_alone(r->Ok_0)
                    &&& model::all_said(model::message_views(r->Ok_0.messages@)) == asked(
                        text::opt_text(self.config.system),
                        arguments@,
                    )
                }
            }),
    {
        if let Err(e) = self.check(arguments) {
            return Err(e);
        }
        if cancelled {
            return Err(Error::Cancelled);
        }
        match self.choose_model(provider, registered, current) {
            Err(e) => Err(e),
            Ok(chosen) => Ok(
                ProviderRequest::alone(
                    ProviderMode::SideQuery,
                    chosen.as_str(),
                    self.messages(arguments),
                ),
            ),
        }
    }
}

/// What the plugin registers, in this order.
pub open spec fn registered() -> Seq<RegistrationView> {
    seq![(RegistrationKind::Command, COMMAND_ID@, 0int)]
}

impl SideQueryCommand {
    /// What the plugin registers, in this order.
    pub fn registrations(&self) -> (r: Vec<Registration>)
        ensures
            registration::registration_views(r@) == registered(),
    {
        let mut list: Vec<Registration> = Vec::new();
        proof {
            assert(registration::registration_views(list@) =~= Seq::empty());
        }
        registration::register(&mut list, RegistrationKind::Command, COMMAND_ID, 0);
        proof {
            assert(registration::registration_views(list@) =~= registered());
        }
        list
    }
}

/// The answer is what arrives as text, in its order, as far as there is room. How it ended
/// and what was used is told as it was told last; thoughts and calls are no part of it.
pub proof fn law_answers_are_gathered(
    output: QueryView,
    a: Seq<model::EventView>,
    b: Seq<model::EventView>,
    event: model::EventView,
    limit: nat,
)
    requires
        text::utf8_len(output.text) <= limit,
    ensures
        after_events(output, a + b, limit) == after_events(
            after_events(output, a, limit),
            b,
            limit,
        ),
        event matches model::EventView::TextDelta(t) ==> {
            &&& text::utf8_len(output.text + t) <= limit ==> after_events(
                output,
                seq![event],
                limit,
            ) == (QueryView { text: output.text + t, ..output })
            &&& text::utf8_len(output.text + t) > limit ==> after_events(
                output,
                seq![event],
                limit,
            ).truncated
        },
        event matches model::EventView::Usage(usage) ==> after_events(output, seq![event], limit)
            == (QueryView { usage: Some(usage), ..output }),
        event matches model::EventView::Finished(reason) ==> after_events(
            output,
            seq![event],
            limit,
        ) == (QueryView { finish_reason: Some(reason), ..output }),
        event is ReasoningDelta || event is ToolCallDelta ==> after_events(
            output,
            seq![event],
            limit,
        ) == output,
    decreases b.len(),
{
    assert(seq![event].drop_last() =~= Seq::empty());
    reveal_with_fuel(after_events, 2);
    if let model::EventView::TextDelta(t) = event {
        bounded::law_bounded_text_keeps_its_limit(output.text, t, limit);
        text::lemma_utf8_len_concat(output.text, t);
    }
    if b.len() == 0 {
        assert(a + b =~= a);
    } else {
        law_answers_are_gathered(output, a, b.drop_last(), event, limit);
        assert((a + b).drop_last() =~= a + b.drop_last());
        assert((a + b).last() == b.last());
    }
}

/// The question is asked by the user and last; what the system has to say comes before it.
pub proof fn law_questions_are_asked_by_the_user(system: Seq<char>, prompt: Seq<char>, current: Seq<char>)
    ensures
        asked(None, prompt).len() == 1,
        asked(None, prompt)[0].0 == Role::User,
        asked(None, prompt)[0].1[0].content == Some(model::ContentView::Text(prompt)),
        system.len() > 0 ==> {
            &&& asked(Some(system), prompt).len() == 2
            &&& asked(Some(system), prompt)[0].0 == Role::System
            &&& asked(Some(system), prompt)[0].1[0].content == Some(
                model::ContentView::Text(system),
            )
            &&& asked(Some(system), prompt)[1] == asked(None, prompt)[0]
        },
        system.len() == 0 ==> asked(Some(system), prompt) == asked(None, prompt),
        answering(Some(system), current) == system,
        answering(None, current) == current,
{
}

} // verus!
