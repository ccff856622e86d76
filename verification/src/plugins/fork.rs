//! A copy of a session's messages, up to one of them, as a session of its own.
use crate::history;
use crate::ids;
use crate::ids::{MessageId, SessionId};
use crate::model;
use crate::model::{Error, Message};
use crate::paths;
use crate::plugins::registration;
use crate::plugins::registration::{Registration, RegistrationKind, RegistrationView};
use crate::text;
use vstd::prelude::*;
use vstd::slice::slice_subrange;

verus! {

pub const PLUGIN_ID: &'static str = "builtin.fork";

pub const COMMAND_ID: &'static str = "builtin.fork";

pub const SCHEMA_VERSION: u32 = 1;

#[derive(Clone, Debug, Default, PartialEq, Eq)]
pub struct ForkConfig {
    /// When set, each fork is written as a self-contained JSON artifact in this directory.
    pub storage_dir: Option<String>,
}

impl ForkConfig {
    pub fn stored_in(path: String) -> (r: Self)
        ensures
            r.storage_dir == Some(path),
    {
        ForkConfig { storage_dir: Some(path) }
    }
}

/// The command of the plugin.
pub struct ForkCommand {
    pub storage_dir: Option<String>,
}

/// Makes the plugin.
pub fn fork_plugin(config: ForkConfig) -> (r: ForkCommand)
    ensures
        r.storage_dir == config.storage_dir,
{
    ForkCommand { storage_dir: config.storage_dir }
}

/// Where a fork comes from.
#[derive(Clone, Copy, Debug, PartialEq, Eq, Structural)]
pub struct ForkProvenance {
    pub source_session_id: SessionId,
    pub through_message_id: Option<MessageId>,
}

/// A fork.
pub struct ForkArtifact {
    pub schema_version: u32,
    pub session_id: SessionId,
    pub provenance: ForkProvenance,
    pub messages: Vec<Message>,
}

/// The identifier that an argument gives, or what is wrong with it.
pub open spec fn argument_id(arguments: Seq<char>) -> Result<Option<MessageId>, Seq<char>> {
    let argument = text::trimmed(arguments);
    if argument.len() == 0 {
        Ok(None)
    } else if text::has_blank(argument) {
        Err("usage: /fork [message-id]"@)
    } else {
        match ids::parsed_uuid(argument) {
            Some(v) => Ok(Some(MessageId(v))),
            None => Err("invalid message id: "@ + argument),
        }
    }
}

/// Reads the argument of the command.
pub fn parse_optional_message_id(arguments: &str) -> (r: model::Result<Option<MessageId>>)
    ensures
        match argument_id(arguments@) {
            Ok(id) => r == Ok::<Option<MessageId>, Error>(id),
            Err(m) => r is Err && r->Err_0@ == model::ErrorView::Plugin(m),
        },
{
    let argument = text::trim(arguments);
    if argument.is_empty() {
        return Ok(None);
    }
    if text::any_blank(argument) {
        return Err(Error::Plugin(text::owned("usage: /fork [message-id]")));
    }
    match MessageId::parse(argument) {
        Some(id) => Ok(Some(id)),
        None => Err(Error::Plugin(text::cat2("invalid message id: ", argument))),
    }
}

/// How many messages a fork takes over.
pub open spec fn fork_end(list: Seq<MessageId>, through: Option<MessageId>) -> Option<int> {
    match through {
        None => Some(list.len() as int),
        Some(id) => if history::place_of(list, id) < list.len() {
            Some(history::place_of(list, id) + 1)
        } else {
            None
        },
    }
}

/// The identifiers that start with what has been typed.
pub open spec fn completions(spelled: Seq<Seq<char>>, typed: Seq<char>) -> Seq<Seq<char>>
    decreases spelled.len(),
{
    if spelled.len() == 0 {
        Seq::empty()
    } else {
        let earlier = completions(spelled.drop_last(), typed);
        if text::starts_with(spelled.last(), typed) {
            earlier.push(spelled.last())
        } else {
            earlier
        }
    }
}

/// The spellings of identifiers.
pub open spec fn spellings(list: Seq<MessageId>) -> Seq<Seq<char>> {
    list.map_values(|id: MessageId| ids::uuid_spelling(id.0))
}

impl ForkCommand {
    pub fn name(&self) -> (r: &'static str)
        ensures
            r@ == "fork"@,
    {
        "fork"
    }

    pub fn description(&self) -> (r: &'static str)
        ensures
            r@ == "Create a self-contained fork of this session's messages."@,
    {
        "Create a self-contained fork of this session's messages."
    }

    pub fn usage(&self) -> (r: &'static str)
        ensures
            r@ == "/fork [message-id]"@,
    {
        "/fork [message-id]"
    }

    /// What can complete the argument: the identifiers that start with it.
    pub fn complete(&self, list: &[MessageId], arguments: &str) -> (r: Vec<String>)
        ensures
            text::texts(r@) == completions(spellings(list@), text::trimmed(arguments@)),
    {
        let typed = text::trim(arguments);
        let ghost all = spellings(list@);
        let mut out = text::no_texts();
        let mut i: usize = 0;
        proof {
            assert(all.take(0) =~= Seq::empty());
        }
        while i < list.len()
            invariant
                i <= list@.len(),
                all == spellings(list@),
                text::texts(out@) == completions(all.take(i as int), typed@),
            decreases list@.len() - i,
        {
            let spelled = list[i].spelled();
            proof {
                assert(all.take(i + 1).drop_last() =~= all.take(i as int));
                assert(all.take(i + 1).last() == spelled@);
            }
            if text::begins(spelled.as_str(), typed) {
                text::push_string(&mut out, spelled);
            }
            i += 1;
        }
        proof {
            assert(all.take(i as int) =~= all);
        }
        out
    }

    /// Forks a session: a new session with its messages, up to the one that is named.
    pub fn fork(&self, arguments: &str, session: SessionId, messages: &[Message]) -> (r:
        model::Result<ForkArtifact>)
        ensures
            match argument_id(arguments@) {
                Err(m) => r is Err && r->Err_0@ == model::ErrorView::Plugin(m),
                Ok(through) => match fork_end(history::id_views(messages@), through) {
                    None => r is Err && r->Err_0@ == model::ErrorView::Plugin(
                        "message "@ + ids::uuid_spelling((through->0).0) + " is not in session "@
                            + ids::uuid_spelling(session.0),
                    ),
                    Some(end) => {
                        &&& r is Ok
                        &&& r->Ok_0.schema_version == 1
                        &&& ids::is_random(r->Ok_0.session_id.0)
                        &&& r->Ok_0.provenance == (ForkProvenance {
                            source_session_id: session,
                            through_message_id: through,
                        })
                        &&& model::message_views(r->Ok_0.messages@) == model::message_views(
                            messages@,
                        ).take(end)
                    },
                },
            },
    {
        let through = match parse_optional_message_id(arguments) {
            Ok(id) => id,
            Err(e) => return Err(e),
        };
        let list = history::ids_of(messages);
        let end: usize = match through {
            None => messages.len(),
            Some(id) => {
                let place: usize = history::position(list.as_slice(), id);
                if place >= messages.len() {
                    return Err(
                        Error::Plugin(
                            text::cat4(
                                "message ",
                                id.spelled().as_str(),
                                " is not in session ",
                                session.spelled().as_str(),
                            ),
                        ),
                    );
                }
                place + 1
            },
        };
        let mut copied: Vec<Message> = Vec::new();
        proof {
            assert(model::message_views(copied@) =~= Seq::empty());
        }
        model::push_messages(&mut copied, slice_subrange(messages, 0, end));
        proof {
            assert(model::message_views(copied@) =~= model::message_views(messages@).take(
                end as int,
            ));
        }
        Ok(
            ForkArtifact {
                schema_version: SCHEMA_VERSION,
                session_id: SessionId(ids::fresh()),
                provenance: ForkProvenance {
                    source_session_id: session,
                    through_message_id: through,
                },
                messages: copied,
            },
        )
    }

    /// Where a fork is stored, where forks are.
    pub fn artifact_path(&self, artifact: &ForkArtifact) -> (r: Option<String>)
        ensures
            text::opt_text(r) == (match text::opt_text(self.storage_dir) {
                Some(dir) => Some(
                    paths::joined(dir, ids::uuid_spelling(artifact.session_id.0) + ".json"@),
                ),
                None => None,
            }),
    {
        match &self.storage_dir {
            Some(dir) => {
                let name = text::cat2(artifact.session_id.spelled().as_str(), ".json");
                Some(paths::join(dir.as_str(), name.as_str()))
            },
            None => None,
        }
    }
}

/// What the plugin registers, in this order.
pub open spec fn registered() -> Seq<RegistrationView> {
    seq![(RegistrationKind::Command, COMMAND_ID@, 0int)]
}

impl ForkCommand {
    /// What the plugin registers, in this order.
    pub fn registrations(&self) -> (r: Vec<Registration>)
        ensures
            registration::registration_views(r@) == registered(),
    {
        let mut list: Vec<Registration> = Vec::new();
        proof {
            assert(registration::registration_views(list@) =~= Seq::empty());
        }
        registration::register(&mut list, RegistrationKind::Command, COMMAND_ID, 0);
        proof {
            assert(registration::registration_views(list@) =~= registered());
        }
        list
    }
}

/// A fork takes over all messages up to the one that is named, and that one too; without
/// one it takes over all. A message that is not there is not forked at.
pub proof fn law_forks_end_with_the_message(before: Seq<MessageId>, id: MessageId, after: Seq<MessageId>)
    requires
        !before.contains(id),
    ensures
        fork_end(before.push(id) + after, Some(id)) == Some(before.len() as int + 1),
        fork_end(before, Some(id)) is None,
        fork_end(before, None) == Some(before.len() as int),
{
    history::law_messages_are_found(before, id, after);
}

/// What completes an argument is exactly every identifier that begins with it.
pub proof fn law_completions_begin_with_the_argument(
    spelled: Seq<Seq<char>>,
    typed: Seq<char>,
    one: Seq<char>,
)
    ensures
        completions(spelled, typed).contains(one) <==> spelled.contains(one) && text::starts_with(
            one,
            typed,
        ),
    decreases spelled.len(),
{
    if spelled.len() > 0 {
        let front = spelled.drop_last();
        let earlier = completions(front, typed);
        let all = completions(spelled, typed);
        law_completions_begin_with_the_argument(front, typed, one);
        if earlier.contains(one) {
            let k = earlier.index_of(one);
            assert(all[k] == one);
            let j = front.index_of(one);
            assert(spelled[j] == one);
        }
        if spelled.contains(one) && text::starts_with(one, typed) {
            let j = spelled.index_of(one);
            if j < front.len() {
                assert(front[j] == one);
            } else {
                assert(all[all.len() - 1] == one);
            }
        }
        if all.contains(one) {
            let k = all.index_of(one);
            if k < earlier.len() {
                assert(earlier[k] == one);
            } else {
                assert(spelled[spelled.len() - 1] == one);
            }
        }
    }
}

/// A fork is asked for without a message or with the identifier of one.
pub proof fn law_arguments_name_one_message(arguments: Seq<char>, id: u128)
    ensures
        text::is_blank(arguments) ==> argument_id(arguments) == Ok::<Option<MessageId>, Seq<char>>(
            None,
        ),
        !text::is_blank(arguments) && !text::has_blank(text::trimmed(arguments)) && ids::parsed_uuid(
            text::trimmed(arguments),
        ) == Some(id) ==> argument_id(arguments) == Ok::<Option<MessageId>, Seq<char>>(
            Some(MessageId(id)),
        ),
        text::has_blank(text::trimmed(arguments)) ==> argument_id(arguments) is Err,
        !text::is_blank(arguments) && ids::parsed_uuid(text::trimmed(arguments)) is None
            ==> argument_id(arguments) is Err,
{
}

} // verus!
