//! Fetches what is at a URL.
use crate::bytes;
use crate::ids;
use crate::ids::{fresh, PluginId, ToolId};
use crate::json;
use crate::json::{Json, ObjectBuilder};
use crate::model;
use crate::model::{Error, ToolDefinition, ToolOutput};
use crate::text;
use vstd::prelude::*;

verus! {

pub const DESCRIPTION: &'static str = "Fetch a URL with timeout and response-size limits.";

/// The scheme of a URL, or what is wrong with the text.
pub uninterp spec fn url_scheme(url: Seq<char>) -> core::result::Result<Seq<char>, Seq<char>>;

/// Calls `reqwest::Url::parse` and `Url::scheme`. Claims that the scheme, or the
/// error text, depends on the text alone.
#[verifier::external_body]
fn parse_url(url: &str) -> (r: core::result::Result<String, String>)
    ensures
        match r {
            Ok(scheme) => url_scheme(url@) == Ok::<Seq<char>, Seq<char>>(scheme@),
            Err(m) => url_scheme(url@) == Err::<Seq<char>, Seq<char>>(m@),
        },
{
    match reqwest::Url::parse(url) {
        Ok(parsed) => Ok(parsed.scheme().to_owned()),
        Err(error) => Err(error.to_string()),
    }
}

/// Fetches what is at a URL.
pub struct ToolWebfetch {
    pub id: ToolId,
    pub max_bytes: usize,
    /// How long fetching may take, in nanoseconds.
    pub timeout_nanos: u128,
}

impl Default for ToolWebfetch {
    fn default() -> (r: Self)
        ensures
            ids::is_random(r.id.0),
            r.max_bytes == 256 * 1024,
            r.timeout_nanos == 20_000_000_000,
    {
        ToolWebfetch::new()
    }
}

/// Text with line feeds where a carriage return and a line feed stood.
pub open spec fn unix_lines(s: Seq<char>) -> Seq<char>
    decreases s.len(),
{
    if s.len() == 0 {
        s
    } else if s.len() >= 2 && s[0] == '\r' && s[1] == '\n' {
        seq!['\n'] + unix_lines(s.skip(2))
    } else {
        seq![s[0]] + unix_lines(s.drop_first())
    }
}

fn to_unix_lines(s: &str) -> (r: String)
    ensures
        r@ == unix_lines(s@),
{
    let cs = text::to_chars(s);
    let mut out = String::new();
    let mut i: usize = 0;
    proof {
        assert(s@.skip(0) =~= s@);
        assert(Seq::<char>::empty() + unix_lines(s@) =~= unix_lines(s@));
    }
    while i < cs.len()
        invariant
            cs@ == s@,
            i <= cs@.len(),
            unix_lines(s@) == out@ + unix_lines(s@.skip(i as int)),
        decreases cs@.len() - i,
    {
        let ghost rest = s@.skip(i as int);
        let ghost before = out@;
        proof {
            assert(rest[0] == s@[i as int]);
            assert(rest.drop_first() =~= s@.skip(i + 1));
        }
        if cs.len() - i >= 2 && cs[i] == '\r' && cs[i + 1] == '\n' {
            proof {
                assert(rest[1] == s@[i + 1]);
                assert(rest.skip(2) =~= s@.skip(i + 2));
            }
            out.push('\n');
            proof {
                assert(before + (seq!['\n'] + unix_lines(s@.skip(i + 2))) =~= out@ + unix_lines(
                    s@.skip(i + 2),
                ));
            }
            i += 2;
        } else {
            proof {
                if rest.len() >= 2 {
                    assert(rest[1] == s@[i + 1]);
                }
            }
            out.push(cs[i]);
            proof {
                assert(before + (seq![rest[0]] + unix_lines(s@.skip(i + 1))) =~= out@ + unix_lines(
                    s@.skip(i + 1),
                ));
            }
            i += 1;
        }
    }
    proof {
        assert(s@.skip(i as int) =~= Seq::empty());
        assert(out@ + unix_lines(s@.skip(i as int)) =~= out@);
    }
    out
}

/// What a request leads to.
pub enum Fetch {
    /// The URL is fetched.
    Url(String),
    /// It is not, for this reason.
    Refused(ToolOutput),
}

/// What a request leads to, by what reading its URL gave.
pub open spec fn verdict(parsed: core::result::Result<Seq<char>, Seq<char>>) -> Result<
    bool,
    Seq<char>,
> {
    match parsed {
        Err(m) => Err("invalid URL: "@ + m),
        Ok(scheme) => Ok(scheme == "http"@ || scheme == "https"@),
    }
}

/// Decides on a URL, by what reading it gave.
pub fn decide(url: &str, parsed: core::result::Result<String, String>) -> (r: model::Result<Fetch>)
    ensures
        ({
            let shown = match parsed {
                Ok(s) => Ok::<Seq<char>, Seq<char>>(s@),
                Err(m) => Err::<Seq<char>, Seq<char>>(m@),
            };
            match verdict(shown) {
                Err(m) => r is Err && r->Err_0@ == model::ErrorView::Tool(m),
                Ok(true) => r is Ok && r->Ok_0 is Url && r->Ok_0->Url_0@ == url@,
                Ok(false) => r is Ok && r->Ok_0 is Refused && r->Ok_0->Refused_0@
                    == model::OutputView::Failure("webfetch only supports http and https"@),
            }
        }),
{
    match parsed {
        Err(m) => Err(Error::Tool(text::cat2("invalid URL: ", m.as_str()))),
        Ok(scheme) => {
            if text::same_text(scheme.as_str(), "http") || text::same_text(
                scheme.as_str(),
                "https",
            ) {
                return Ok(Fetch::Url(text::owned(url)));
            }
            Ok(
                Fetch::Refused(
                    ToolOutput::Failure {
                        content: text::owned("webfetch only supports http and https"),
                    },
                ),
            )
        },
    }
}

impl ToolWebfetch {
    pub fn new() -> (r: Self)
        ensures
            ids::is_random(r.id.0),
            r.max_bytes == 256 * 1024,
            r.timeout_nanos == 20_000_000_000,
    {
        ToolWebfetch {
            id: ToolId(fresh()),
            max_bytes: 256 * 1024,
            timeout_nanos: 20_000_000_000,
        }
    }

    pub fn with_limits(self, timeout_nanos: u128, max_bytes: usize) -> (r: Self)
        ensures
            r.id == self.id,
            r.timeout_nanos == timeout_nanos,
            r.max_bytes == max_bytes,
    {
        ToolWebfetch { id: self.id, max_bytes, timeout_nanos }
    }

    /// What a provider is told of the tool.
    pub fn definition(&self) -> (r: ToolDefinition)
        ensures
            r.name@ == "webfetch"@,
            r.description@ == DESCRIPTION@,
            r.schema@ == json::object_type(seq![("url"@, json::string_type())], seq!["url"@]),
            r.freeform is None,
    {
        let properties = ObjectBuilder::new().with("url", json::string_schema());
        proof {
            assert(properties@ =~= seq![("url"@, json::string_type())]);
            assert(text::slice_texts(["url"]@) =~= seq!["url"@]);
        }
        ToolDefinition {
            name: text::owned("webfetch"),
            description: text::owned(DESCRIPTION),
            schema: json::object_schema(properties, &["url"]),
            freeform: None,
        }
    }

    /// Reads a request.
    pub fn request(&self, input: &Json) -> (r: model::Result<Fetch>)
        ensures
            match json::text_at(input@, "url"@) {
                None => r is Err && r->Err_0@ == model::ErrorView::Tool("webfetch requires url"@),
                Some(url) => match verdict(url_scheme(url)) {
                    Err(m) => r is Err && r->Err_0@ == model::ErrorView::Tool(m),
                    Ok(true) => r is Ok && r->Ok_0 is Url && r->Ok_0->Url_0@ == url,
                    Ok(false) => r is Ok && r->Ok_0 is Refused && r->Ok_0->Refused_0@
                        == model::OutputView::Failure("webfetch only supports http and https"@),
                },
            },
    {
        match input.get_str("url") {
            Some(url) => decide(url, parse_url(url)),
            None => Err(Error::Tool(text::owned("webfetch requires url"))),
        }
    }

    /// Takes in a piece of the response. Returns the answer where the response is
    /// too long.
    pub fn take_chunk(&self, body: &mut Vec<u8>, chunk: &[u8]) -> (r: Option<ToolOutput>)
        ensures
            if old(body)@.len() + chunk@.len() > self.max_bytes {
                &&& r is Some
                &&& r->0@ == model::OutputView::Failure(
                    "webfetch response exceeds "@ + text::decimal(self.max_bytes as nat)
                        + " bytes"@,
                )
                &&& final(body)@ == old(body)@
            } else {
                r is None && final(body)@ == old(body)@ + chunk@
            },
    {
        if body.len() > self.max_bytes || chunk.len() > self.max_bytes - body.len() {
            return Some(
                ToolOutput::Failure {
                    content: text::cat3(
                        "webfetch response exceeds ",
                        text::usize_text(self.max_bytes).as_str(),
                        " bytes",
                    ),
                },
            );
        }
        bytes::extend(body, chunk);
        None
    }

    /// The answer to a request, by the response: a success where the status is one.
    pub fn show(&self, status: &str, success: bool, body: &[u8]) -> (r: ToolOutput)
        ensures
            ({
                let content = "HTTP "@ + status@ + "\n"@ + unix_lines(bytes::lossy(body@));
                r@ == (if success {
                    model::OutputView::Success(content)
                } else {
                    model::OutputView::Failure(content)
                })
            }),
    {
        let decoded = bytes::lossy_text(body);
        let content = text::cat4("HTTP ", status, "\n", to_unix_lines(decoded.as_str()).as_str());
        if success {
            ToolOutput::Success { content }
        } else {
            ToolOutput::Failure { content }
        }
    }
}

/// The plugin that offers the tool.
pub struct ToolWebfetchPlugin {
    pub id: PluginId,
    pub tool: ToolWebfetch,
}

impl ToolWebfetchPlugin {
    pub fn new(tool: ToolWebfetch) -> (r: Self)
        ensures
            ids::is_random(r.id.0),
            r.tool == tool,
    {
        ToolWebfetchPlugin { id: PluginId(fresh()), tool }
    }

    pub fn name(&self) -> (r: &'static str)
        ensures
            r@ == "tool_webfetch"@,
    {
        "tool_webfetch"
    }
}

/// Line ends are made alike: a carriage return before a line feed goes, and all other
/// text stays.
pub proof fn law_line_ends_are_made_alike(a: Seq<char>, b: Seq<char>)
    requires
        !a.contains('\r'),
    ensures
        unix_lines(a) == a,
        unix_lines(a + seq!['\r', '\n'] + b) == a + seq!['\n'] + unix_lines(b),
    decreases a.len(),
{
    let all = a + seq!['\r', '\n'] + b;
    if a.len() == 0 {
        assert(all.skip(2) =~= b);
        assert(a + seq!['\n'] + unix_lines(b) =~= seq!['\n'] + unix_lines(b));
    } else {
        let rest = a.drop_first();
        assert(a.contains(a[0]));
        assert(!rest.contains('\r')) by {
            if rest.contains('\r') {
                let k = rest.index_of('\r');
                assert(a[k + 1] == '\r');
            }
        }
        law_line_ends_are_made_alike(rest, b);
        assert(all.drop_first() =~= rest + seq!['\r', '\n'] + b);
        assert(seq![a[0]] + rest =~= a);
        assert(seq![a[0]] + (rest + seq!['\n'] + unix_lines(b)) =~= a + seq!['\n'] + unix_lines(b));
    }
}

/// Only what is reached by the protocols of the web is fetched.
pub proof fn law_only_the_web_is_fetched(scheme: Seq<char>, complaint: Seq<char>)
    ensures
        verdict(Ok("http"@)) == Ok::<bool, Seq<char>>(true),
        verdict(Ok("https"@)) == Ok::<bool, Seq<char>>(true),
        scheme != "http"@ && scheme != "https"@ ==> verdict(Ok(scheme)) == Ok::<bool, Seq<char>>(
            false,
        ),
        verdict(Err(complaint)) is Err,
{
}

} // verus!
