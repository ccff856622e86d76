//! Identifiers of sessions, messages, plugins, tools, actions and providers.
use vstd::prelude::*;

verus! {

/// The identifier that a text spells, as the `uuid` crate reads it.
pub uninterp spec fn parsed_uuid(text: Seq<char>) -> Option<u128>;

/// The hyphenated spelling of an identifier.
pub uninterp spec fn uuid_spelling(value: u128) -> Seq<char>;

/// The name-based identifier (version 5) of a name in the URL namespace.
pub uninterp spec fn uuid_of_url(name: Seq<u8>) -> u128;

/// Whether an identifier is marked as a random one (version 4): the bits of its
/// version are 0100 and those of its variant 10.
pub open spec fn is_random(value: u128) -> bool {
    &&& value / 0x1000_0000_0000_0000_0000 % 16 == 4
    &&& value / 0x4000_0000_0000_0000 % 4 == 2
}

/// Calls `uuid::Uuid::new_v4`. Claims that the value is marked as a random one. Its
/// other bits are random: nothing is claimed of them.
#[verifier::external_body]
pub(crate) fn random_uuid() -> (value: u128)
    ensures
        is_random(value),
{
    uuid::Uuid::new_v4().as_u128()
}

/// What is wrong with a text that spells no identifier.
pub uninterp spec fn uuid_complaint(text: Seq<char>) -> Seq<char>;

/// Calls `uuid::Uuid::parse_str`. Claims that whether a text is accepted, the
/// value that it spells, and the error text depend on the text alone.
#[verifier::external_body]
pub(crate) fn parse_uuid(text: &str) -> (r: core::result::Result<u128, String>)
    ensures
        r is Ok == parsed_uuid(text@) is Some,
        r matches Ok(value) ==> parsed_uuid(text@) == Some(value),
        r matches Err(m) ==> m@ == uuid_complaint(text@),
{
    match uuid::Uuid::parse_str(text) {
        Ok(id) => Ok(id.as_u128()),
        Err(error) => Err(error.to_string()),
    }
}

/// Calls `uuid::Uuid::from_u128` and the `Display` of the result. Claims that
/// the spelling depends on the value alone, and that reading it gives the value
/// back.
#[verifier::external_body]
pub(crate) fn spell_uuid(value: u128) -> (text: String)
    ensures
        text@ == uuid_spelling(value),
        parsed_uuid(text@) == Some(value),
{
    uuid::Uuid::from_u128(value).to_string()
}

/// Calls `uuid::Uuid::new_v5` with the URL namespace. Claims that the value
/// depends on the name alone.
#[verifier::external_body]
pub(crate) fn url_uuid(name: &[u8]) -> (value: u128)
    ensures
        value == uuid_of_url(name@),
{
    uuid::Uuid::new_v5(&uuid::Uuid::NAMESPACE_URL, name).as_u128()
}

#[derive(Clone, Copy, Debug, PartialEq, Eq, PartialOrd, Ord, Hash, Structural)]
pub struct SessionId(pub u128);

#[derive(Clone, Copy, Debug, PartialEq, Eq, PartialOrd, Ord, Hash, Structural)]
pub struct MessageId(pub u128);

#[derive(Clone, Copy, Debug, PartialEq, Eq, PartialOrd, Ord, Hash, Structural)]
pub struct ProjectId(pub u128);

#[derive(Clone, Copy, Debug, PartialEq, Eq, PartialOrd, Ord, Hash, Structural)]
pub struct PluginId(pub u128);

#[derive(Clone, Copy, Debug, PartialEq, Eq, PartialOrd, Ord, Hash, Structural)]
pub struct ToolId(pub u128);

#[derive(Clone, Copy, Debug, PartialEq, Eq, PartialOrd, Ord, Hash, Structural)]
pub struct ProviderId(pub u128);

#[derive(Clone, Copy, Debug, PartialEq, Eq, PartialOrd, Ord, Hash, Structural)]
pub struct NoteId(pub u128);

#[derive(Clone, Copy, Debug, PartialEq, Eq, PartialOrd, Ord, Hash, Structural)]
pub struct ShellActionId(pub u128);

/// A fresh value for an identifier, marked as a random one. The rest of it is left to
/// chance: two calls may give any two such values.
pub fn fresh() -> (value: u128)
    ensures
        is_random(value),
{
    random_uuid()
}

impl SessionId {
    /// The spelling of the identifier, from which it can be read again.
    pub fn spelled(self) -> (text: String)
        ensures
            text@ == uuid_spelling(self.0),
            parsed_uuid(text@) == Some(self.0),
    {
        spell_uuid(self.0)
    }

    /// The identifier that `text` spells.
    pub fn parse(text: &str) -> (id: Option<SessionId>)
        ensures
            id == (match parsed_uuid(text@) {
                Some(v) => Some(SessionId(v)),
                None => None,
            }),
    {
        match parse_uuid(text) {
            Ok(v) => Some(SessionId(v)),
            Err(_) => None,
        }
    }
}

impl MessageId {
    /// The spelling of the identifier, from which it can be read again.
    pub fn spelled(self) -> (text: String)
        ensures
            text@ == uuid_spelling(self.0),
            parsed_uuid(text@) == Some(self.0),
    {
        spell_uuid(self.0)
    }

    /// The identifier that `text` spells.
    pub fn parse(text: &str) -> (id: Option<MessageId>)
        ensures
            id == (match parsed_uuid(text@) {
                Some(v) => Some(MessageId(v)),
                None => None,
            }),
    {
        match parse_uuid(text) {
            Ok(v) => Some(MessageId(v)),
            Err(_) => None,
        }
    }
}

} // verus!
