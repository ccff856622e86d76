//! OpenAI as a provider.
use crate::model;
use crate::plugins::provider_openai;
use crate::providers::openai_compatible::OpenAiCompatible;
use crate::text;
use vstd::prelude::*;

verus! {

pub const PROVIDER_ID: &'static str = "openai";

pub const DEFAULT_BASE_URL: &'static str = "https://api.openai.com/v1";

/// How the provider is reached.
#[derive(Clone, Debug, PartialEq, Eq)]
pub struct OpenAiConfig {
    pub api_key: String,
    pub base_url: Option<String>,
    pub organization: Option<String>,
    pub project: Option<String>,
}

impl OpenAiConfig {
    pub fn new(api_key: String) -> (r: Self)
        ensures
            r.api_key == api_key,
            r.base_url is None,
            r.organization is None,
            r.project is None,
    {
        OpenAiConfig { api_key, base_url: None, organization: None, project: None }
    }
}

/// The headers that a configuration adds to each request.
pub open spec fn headers_of(organization: Option<Seq<char>>, project: Option<Seq<char>>) -> Seq<
    (Seq<char>, Seq<char>),
> {
    (match organization {
        Some(v) => seq![("openai-organization"@, v)],
        None => Seq::empty(),
    }) + (match project {
        Some(v) => seq![("openai-project"@, v)],
        None => Seq::empty(),
    })
}

/// Makes the provider.
pub fn openai_plugin(config: OpenAiConfig) -> (r: OpenAiCompatible)
    ensures
        r.id@ == PROVIDER_ID@,
        r.base_url@ == provider_openai::without_slashes(
            match config.base_url {
                Some(url) => url@,
                None => DEFAULT_BASE_URL@,
            },
        ),
        r.api_key == config.api_key,
        model::pair_views(r.headers@) == headers_of(
            text::opt_text(config.organization),
            text::opt_text(config.project),
        ),
{
    let ghost wanted = headers_of(
        text::opt_text(config.organization),
        text::opt_text(config.project),
    );
    let mut headers: Vec<(String, String)> = Vec::new();
    if let Some(value) = config.organization {
        headers.push((text::owned("openai-organization"), value));
    }
    if let Some(value) = config.project {
        headers.push((text::owned("openai-project"), value));
    }
    proof {
        assert(model::pair_views(headers@) =~= wanted);
    }
    let base_url = match config.base_url {
        Some(url) => url,
        None => text::owned(DEFAULT_BASE_URL),
    };
    OpenAiCompatible::new(PROVIDER_ID, base_url.as_str(), config.api_key, headers)
}

/// What is given of an account is told under the names that the service has for it.
pub proof fn law_accounts_are_told(organization: Seq<char>, project: Seq<char>)
    ensures
        headers_of(Some(organization), Some(project)) == seq![
            ("openai-organization"@, organization),
            ("openai-project"@, project),
        ],
        headers_of(Some(organization), None) == seq![("openai-organization"@, organization)],
        headers_of(None, Some(project)) == seq![("openai-project"@, project)],
        headers_of(None, None).len() == 0,
{
    assert(headers_of(Some(organization), None) =~= seq![("openai-organization"@, organization)]);
    assert(headers_of(None, Some(project)) =~= seq![("openai-project"@, project)]);
}

} // verus!
