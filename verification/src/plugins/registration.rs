//! What plugins register: providers, tools, commands, hooks and layers, each under an
//! identifier and with a priority.
use crate::text;
use vstd::prelude::*;

verus! {

/// What is registered.
#[derive(Clone, Copy, Debug, PartialEq, Eq, Structural)]
pub enum RegistrationKind {
    Provider,
    Tool,
    Command,
    WorkdirLayer,
    ContextContribution,
    BeforeUserMessage,
    BeforeProviderRequest,
    BeforeToolExecution,
    AfterToolExecution,
}

/// Something that a plugin registers.
#[derive(Clone, Debug, PartialEq, Eq)]
pub struct Registration {
    pub kind: RegistrationKind,
    pub id: String,
    pub priority: i32,
}

/// A registration in mathematical terms: what it is, its identifier and its priority.
pub type RegistrationView = (RegistrationKind, Seq<char>, int);

pub open spec fn registration_views(list: Seq<Registration>) -> Seq<RegistrationView> {
    Seq::new(list.len(), |i: int| (list[i].kind, list[i].id@, list[i].priority as int))
}

/// Adds a registration to a list.
pub fn register(list: &mut Vec<Registration>, kind: RegistrationKind, id: &str, priority: i32)
    ensures
        registration_views(final(list)@) == registration_views(old(list)@).push(
            (kind, id@, priority as int),
        ),
{
    let ghost before = registration_views(list@);
    list.push(Registration { kind, id: text::owned(id), priority });
    proof {
        assert(registration_views(list@) =~= before.push((kind, id@, priority as int)));
    }
}

} // verus!
