//! The instructions that a project keeps in its AGENTS.md.
use crate::model;
use crate::model::{ContextPart, ContextPriority, Error};
use crate::paths;
use crate::plugins::file_tools::FileProbe;
use crate::plugins::registration;
use crate::plugins::registration::{Registration, RegistrationKind, RegistrationView};
use crate::text;
use vstd::prelude::*;

verus! {

pub const PLUGIN_ID: &'static str = "builtin.instructions.agents";

pub const HOOK_ID: &'static str = "builtin.instructions.agents.context";

#[derive(Clone, Debug, PartialEq, Eq)]
pub struct AgentsInstructionsConfig {
    pub max_file_bytes: usize,
    pub max_total_bytes: usize,
}

impl Default for AgentsInstructionsConfig {
    fn default() -> (r: Self)
        ensures
            r.max_file_bytes == 64 * 1024,
            r.max_total_bytes == 256 * 1024,
    {
        AgentsInstructionsConfig { max_file_bytes: 64 * 1024, max_total_bytes: 256 * 1024 }
    }
}

/// What gives the instructions.
pub struct AgentsInstructionsHook {
    pub config: AgentsInstructionsConfig,
}

/// Makes the plugin.
pub fn agents_instructions_plugin(config: AgentsInstructionsConfig) -> (r: AgentsInstructionsHook)
    ensures
        r.config == config,
{
    AgentsInstructionsHook { config }
}

/// How many bytes the instructions may have.
pub open spec fn limit_of(config: AgentsInstructionsConfig) -> usize {
    if config.max_file_bytes <= config.max_total_bytes {
        config.max_file_bytes
    } else {
        config.max_total_bytes
    }
}

/// What is wrong with what was found, if anything.
pub open spec fn objection(path: Seq<char>, probe: FileProbe, limit: usize) -> Option<Seq<char>> {
    match probe {
        FileProbe::Missing => None,
        FileProbe::Failed(e) => Some("could not inspect "@ + path + ": "@ + e@),
        FileProbe::Found(facts) => if facts.symlink || !facts.file {
            Some("instruction file must be a regular non-symlink file: "@ + path)
        } else if facts.length > limit {
            Some("instruction size limit exceeded by "@ + path)
        } else {
            None
        },
    }
}

impl AgentsInstructionsHook {
    /// How many bytes the instructions may have.
    pub fn limit(&self) -> (r: usize)
        ensures
            r == limit_of(self.config),
    {
        if self.config.max_file_bytes <= self.config.max_total_bytes {
            self.config.max_file_bytes
        } else {
            self.config.max_total_bytes
        }
    }

    /// Whether the limits can be kept at all.
    pub fn check_limits(&self) -> (r: model::Result<()>)
        ensures
            if limit_of(self.config) == 0 {
                r is Err && r->Err_0@ == model::ErrorView::Plugin(
                    "instruction size limits must be non-zero"@,
                )
            } else {
                r is Ok
            },
    {
        if self.config.max_file_bytes == 0 || self.config.max_total_bytes == 0 {
            return Err(Error::Plugin(text::owned("instruction size limits must be non-zero")));
        }
        Ok(())
    }

    /// Where the instructions are; `resolved` is the root without links.
    pub fn file_in(&self, root: &str, resolved: core::result::Result<String, String>) -> (r:
        model::Result<String>)
        ensures
            match resolved {
                Ok(p) => r is Ok && r->Ok_0@ == paths::joined(p@, "AGENTS.md"@),
                Err(e) => r is Err && r->Err_0@ == model::ErrorView::Plugin(
                    "could not resolve workdir root "@ + root@ + ": "@ + e@,
                ),
            },
    {
        match resolved {
            Ok(p) => Ok(paths::join(p.as_str(), "AGENTS.md")),
            Err(e) => Err(
                Error::Plugin(
                    text::cat4("could not resolve workdir root ", root, ": ", e.as_str()),
                ),
            ),
        }
    }

    /// Whether there is a file to be read.
    pub fn inspect(&self, path: &str, probe: &FileProbe) -> (r: model::Result<bool>)
        ensures
            match objection(path@, *probe, limit_of(self.config)) {
                Some(m) => r is Err && r->Err_0@ == model::ErrorView::Plugin(m),
                None => r == Ok::<bool, Error>(!(probe is Missing)),
            },
    {
        match probe {
            FileProbe::Missing => Ok(false),
            FileProbe::Failed(e) => Err(
                Error::Plugin(text::cat4("could not inspect ", path, ": ", e.as_str())),
            ),
            FileProbe::Found(facts) => {
                if facts.symlink || !facts.file {
                    return Err(
                        Error::Plugin(
                            text::cat2(
                                "instruction file must be a regular non-symlink file: ",
                                path,
                            ),
                        ),
                    );
                }
                if facts.length > self.limit() as u64 {
                    return Err(
                        Error::Plugin(text::cat2("instruction size limit exceeded by ", path)),
                    );
                }
                Ok(true)
            },
        }
    }

    /// Takes what was read from the file, no more than one byte above the limit.
    pub fn accept(&self, path: &str, read: core::result::Result<Vec<u8>, String>) -> (r:
        model::Result<String>)
        ensures
            match read {
                Err(e) => r is Err && r->Err_0@ == model::ErrorView::Plugin(
                    "could not read "@ + path@ + ": "@ + e@,
                ),
                Ok(bytes) => if bytes@.len() > limit_of(self.config) {
                    r is Err && r->Err_0@ == model::ErrorView::Plugin(
                        "instruction size limit exceeded by "@ + path@,
                    )
                } else if vstd::utf8::valid_utf8(bytes@) {
                    r is Ok && vstd::utf8::encode_utf8(r->Ok_0@) == bytes@
                } else {
                    r is Err && r->Err_0@ == model::ErrorView::Plugin(
                        "instruction file "@ + path@ + " is not UTF-8: "@ + text::utf8_complaint(
                            bytes@,
                        ),
                    )
                },
            },
    {
        let bytes = match read {
            Ok(b) => b,
            Err(e) => {
                return Err(Error::Plugin(text::cat4("could not read ", path, ": ", e.as_str())));
            },
        };
        if bytes.len() > self.limit() {
            return Err(Error::Plugin(text::cat2("instruction size limit exceeded by ", path)));
        }
        match text::utf8_text(bytes) {
            Ok(content) => Ok(content),
            Err(e) => Err(
                Error::Plugin(
                    text::cat4("instruction file ", path, " is not UTF-8: ", e.as_str()),
                ),
            ),
        }
    }

    /// What the instructions contribute: nothing where they are blank.
    pub fn contribute(&self, content: &str) -> (r: Option<ContextPart>)
        ensures
            r is Some == !text::is_blank(content@),
            r matches Some(part) ==> {
                &&& part.priority == ContextPriority::Persistent
                &&& part.source@ == PLUGIN_ID@
                &&& part.content@ == "Instructions from AGENTS.md:\n"@ + content@
            },
    {
        if text::blank(content) {
            return None;
        }
        Some(
            ContextPart {
                priority: ContextPriority::Persistent,
                source: text::owned(PLUGIN_ID),
                content: text::cat2("Instructions from AGENTS.md:\n", content),
            },
        )
    }
}

/// What the plugin registers, in this order.
pub open spec fn registered() -> Seq<RegistrationView> {
    seq![(RegistrationKind::ContextContribution, HOOK_ID@, 0int)]
}

impl AgentsInstructionsHook {
    /// What the plugin registers, in this order.
    pub fn registrations(&self) -> (r: Vec<Registration>)
        ensures
            registration::registration_views(r@) == registered(),
    {
        let mut list: Vec<Registration> = Vec::new();
        proof {
            assert(registration::registration_views(list@) =~= Seq::empty());
        }
        registration::register(&mut list, RegistrationKind::ContextContribution, HOOK_ID, 0);
        proof {
            assert(registration::registration_views(list@) =~= registered());
        }
        list
    }
}

/// A file of instructions is read exactly where it is a plain file that keeps both limits;
/// one that is not there is no fault.
pub proof fn law_only_plain_files_are_read(
    path: Seq<char>,
    probe: FileProbe,
    config: AgentsInstructionsConfig,
)
    ensures
        probe matches FileProbe::Found(facts) ==> (objection(path, probe, limit_of(config)) is None
            <==> facts.file && !facts.symlink && facts.length <= config.max_file_bytes
            && facts.length <= config.max_total_bytes),
        probe is Missing ==> objection(path, probe, limit_of(config)) is None,
        probe is Failed ==> objection(path, probe, limit_of(config)) is Some,
        limit_of(config) == config.max_file_bytes || limit_of(config) == config.max_total_bytes,
{
}

} // verus!
