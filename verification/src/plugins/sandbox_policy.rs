//! A sandbox of rules alone: files go through the rules, programs are never run.
use crate::model;
use crate::model::Error;
use crate::plugins::registration;
use crate::plugins::registration::{Registration, RegistrationKind, RegistrationView};
use crate::plugins::sandbox;
use crate::plugins::sandbox::{FileOperation, PathRule, ProcessRule};
use crate::text;
use vstd::prelude::*;

verus! {

pub const PLUGIN_ID: &'static str = "builtin.sandbox-policy";

pub const LAYER_ID: &'static str = "builtin.sandbox-policy.workdir";

const NAME: &'static str = "policy sandbox";

pub type PolicyFileOperation = FileOperation;

pub type PolicyPathRule = PathRule;

pub type PolicyProcessRule = ProcessRule;

/// What the sandbox allows.
#[derive(Clone, Debug, Default, PartialEq, Eq)]
pub struct PolicySandboxConfig {
    pub path_rules: Vec<PolicyPathRule>,
    pub process_rules: Vec<PolicyProcessRule>,
    pub default_allow: bool,
}

/// A checked configuration.
pub struct Policy {
    pub path_rules: Vec<PolicyPathRule>,
    pub process_rules: Vec<PolicyProcessRule>,
    pub default_allow: bool,
}

/// Makes the sandbox, where its rules are usable.
pub fn policy_sandbox_plugin(config: PolicySandboxConfig) -> (r: model::Result<Policy>)
    ensures
        match sandbox::plain_rules(sandbox::path_rule_views(config.path_rules@)) {
            Ok(plain) => {
                &&& r is Ok
                &&& sandbox::path_rule_views(r->Ok_0.path_rules@) == plain
                &&& r->Ok_0.process_rules == config.process_rules
                &&& r->Ok_0.default_allow == config.default_allow
            },
            Err(m) => r is Err && r->Err_0@ == model::ErrorView::Workdir(m),
        },
{
    let path_rules = match sandbox::normalize_rules(config.path_rules.as_slice()) {
        Ok(rules) => rules,
        Err(e) => return Err(e),
    };
    Ok(
        Policy {
            path_rules,
            process_rules: config.process_rules,
            default_allow: config.default_allow,
        },
    )
}

impl Policy {
    /// Asks the rules about a file.
    pub fn check_path(&self, operation: PolicyFileOperation, path: &str) -> (r: model::Result<
        String,
    >)
        ensures
            match sandbox::path_verdict(
                "policy sandbox"@,
                sandbox::path_rule_views(self.path_rules@),
                self.default_allow,
                operation,
                path@,
                false,
            ) {
                Ok(p) => r is Ok && r->Ok_0@ == p,
                Err(m) => r is Err && r->Err_0@ == model::ErrorView::Workdir(m),
            },
    {
        sandbox::require_path(
            NAME,
            self.path_rules.as_slice(),
            self.default_allow,
            operation,
            path,
            false,
        )
    }

    /// Asks the rules about a program.
    pub fn check_process(&self, program: &str) -> (r: model::Result<()>)
        ensures
            r is Ok == sandbox::process_allowed(
                sandbox::process_rule_views(self.process_rules@),
                program@,
                self.default_allow,
            ),
            r matches Err(e) ==> e@ == model::ErrorView::Workdir(
                sandbox::process_denial("policy sandbox"@, program@),
            ),
    {
        sandbox::require_process(NAME, self.process_rules.as_slice(), self.default_allow, program)
    }

    /// Why a program is not run: none is, since the rules on files could not be
    /// enforced on it.
    pub fn execute(&self, program: &str) -> (r: Error)
        ensures
            r@ == model::ErrorView::Workdir(
                if sandbox::process_allowed(
                    sandbox::process_rule_views(self.process_rules@),
                    program@,
                    self.default_allow,
                ) {
                    "policy sandbox cannot safely delegate process execution"@
                } else {
                    sandbox::process_denial("policy sandbox"@, program@)
                },
            ),
    {
        match self.check_process(program) {
            Err(e) => e,
            Ok(()) => Error::Workdir(
                text::owned("policy sandbox cannot safely delegate process execution"),
            ),
        }
    }
}

/// What the plugin registers, in this order.
pub open spec fn registered() -> Seq<RegistrationView> {
    seq![(RegistrationKind::WorkdirLayer, LAYER_ID@, 0int)]
}

impl Policy {
    /// What the plugin registers, in this order.
    pub fn registrations(&self) -> (r: Vec<Registration>)
        ensures
            registration::registration_views(r@) == registered(),
    {
        let mut list: Vec<Registration> = Vec::new();
        proof {
            assert(registration::registration_views(list@) =~= Seq::empty());
        }
        registration::register(&mut list, RegistrationKind::WorkdirLayer, LAYER_ID, 0);
        proof {
            assert(registration::registration_views(list@) =~= registered());
        }
        list
    }
}

} // verus!
