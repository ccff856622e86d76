//! OpenRouter as a provider.
use crate::model;
use crate::plugins::provider_openai;
use crate::providers::openai_compatible::OpenAiCompatible;
use crate::text;
use vstd::prelude::*;

verus! {

pub const PROVIDER_ID: &'static str = "openrouter";

pub const DEFAULT_BASE_URL: &'static str = "https://openrouter.ai/api/v1";

/// How the provider is reached.
#[derive(Clone, Debug, PartialEq, Eq)]
pub struct OpenRouterConfig {
    pub api_key: String,
    pub base_url: Option<String>,
    pub site_url: Option<String>,
    pub app_name: Option<String>,
}

impl OpenRouterConfig {
    pub fn new(api_key: String) -> (r: Self)
        ensures
            r.api_key == api_key,
            r.base_url is None,
            r.site_url is None,
            r.app_name is None,
    {
        OpenRouterConfig { api_key, base_url: None, site_url: None, app_name: None }
    }
}

/// The headers that a configuration adds to each request.
pub open spec fn headers_of(site_url: Option<Seq<char>>, app_name: Option<Seq<char>>) -> Seq<
    (Seq<char>, Seq<char>),
> {
    (match site_url {
        Some(v) => seq![("http-referer"@, v)],
        None => Seq::empty(),
    }) + (match app_name {
        Some(v) => seq![("x-title"@, v)],
        None => Seq::empty(),
    })
}

/// Makes the provider.
pub fn openrouter_plugin(config: OpenRouterConfig) -> (r: OpenAiCompatible)
    ensures
        r.id@ == PROVIDER_ID@,
        r.base_url@ == provider_openai::without_slashes(
            match config.base_url {
                Some(url) => url@,
                None => DEFAULT_BASE_URL@,
            },
        ),
        r.api_key == config.api_key,
        model::pair_views(r.headers@) == headers_of(
            text::opt_text(config.site_url),
            text::opt_text(config.app_name),
        ),
{
    let ghost wanted = headers_of(
        text::opt_text(config.site_url),
        text::opt_text(config.app_name),
    );
    let mut headers: Vec<(String, String)> = Vec::new();
    if let Some(value) = config.site_url {
        headers.push((text::owned("http-referer"), value));
    }
    if let Some(value) = config.app_name {
        headers.push((text::owned("x-title"), value));
    }
    proof {
        assert(model::pair_views(headers@) =~= wanted);
    }
    let base_url = match config.base_url {
        Some(url) => url,
        None => text::owned(DEFAULT_BASE_URL),
    };
    OpenAiCompatible::new(PROVIDER_ID, base_url.as_str(), config.api_key, headers)
}

/// What is given of an application is told under the names that the service has for it.
pub proof fn law_applications_are_told(site_url: Seq<char>, app_name: Seq<char>)
    ensures
        headers_of(Some(site_url), Some(app_name)) == seq![
            ("http-referer"@, site_url),
            ("x-title"@, app_name),
        ],
        headers_of(Some(site_url), None) == seq![("http-referer"@, site_url)],
        headers_of(None, Some(app_name)) == seq![("x-title"@, app_name)],
        headers_of(None, None).len() == 0,
{
    assert(headers_of(Some(site_url), None) =~= seq![("http-referer"@, site_url)]);
    assert(headers_of(None, Some(app_name)) =~= seq![("x-title"@, app_name)]);
}

} // verus!
