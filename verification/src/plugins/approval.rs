//! Lets all tools run, or none.
use crate::plugins::registration;
use crate::plugins::registration::{Registration, RegistrationKind, RegistrationView};
use crate::text;
use vstd::prelude::*;

verus! {

pub const APPROVAL_PLUGIN_ID: &'static str = "builtin.approval";

pub const APPROVAL_HOOK_ID: &'static str = "builtin.approval.before-tool-call";

#[derive(Clone, Copy, Debug, PartialEq, Eq, Structural)]
pub enum ApprovalPolicy {
    Allow,
    Deny,
}

/// Whether something goes on.
#[derive(Clone, Debug, PartialEq, Eq)]
pub enum BeforeHookResult {
    Continue,
    Cancel { reason: String },
}

/// The plugin that applies a policy.
pub struct ApprovalPlugin {
    pub policy: ApprovalPolicy,
}

/// Makes the plugin.
pub fn approval_plugin(policy: ApprovalPolicy) -> (r: ApprovalPlugin)
    ensures
        r.policy == policy,
{
    ApprovalPlugin { policy }
}

impl ApprovalPlugin {
    /// The identifier of the plugin.
    pub fn id(&self) -> (r: &'static str)
        ensures
            r@ == APPROVAL_PLUGIN_ID@,
    {
        APPROVAL_PLUGIN_ID
    }

    /// Decides whether a tool runs.
    pub fn before_tool_execution(&self) -> (r: BeforeHookResult)
        ensures
            match self.policy {
                ApprovalPolicy::Allow => r is Continue,
                ApprovalPolicy::Deny => r is Cancel && r->reason@
                    == "tool execution denied by approval policy"@,
            },
    {
        match self.policy {
            ApprovalPolicy::Allow => BeforeHookResult::Continue,
            ApprovalPolicy::Deny => BeforeHookResult::Cancel {
                reason: text::owned("tool execution denied by approval policy"),
            },
        }
    }
}

/// What the plugin registers, in this order.
pub open spec fn registered() -> Seq<RegistrationView> {
    seq![(RegistrationKind::BeforeToolExecution, APPROVAL_HOOK_ID@, 0int)]
}

impl ApprovalPlugin {
    /// What the plugin registers, in this order.
    pub fn registrations(&self) -> (r: Vec<Registration>)
        ensures
            registration::registration_views(r@) == registered(),
    {
        let mut list: Vec<Registration> = Vec::new();
        proof {
            assert(registration::registration_views(list@) =~= Seq::empty());
        }
        registration::register(&mut list, RegistrationKind::BeforeToolExecution, APPROVAL_HOOK_ID, 0);
        proof {
            assert(registration::registration_views(list@) =~= registered());
        }
        list
    }
}

} // verus!
