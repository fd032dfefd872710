//! The configuration of the transport: which endpoint may be talked to, the
//! addresses of the three requests, the credential header, the timeouts, and
//! which response statuses count as failures.
//!
//! Sending the requests is left to the caller.

use crate::text::{chars_equal, chars_of};
use vstd::prelude::*;
use vstd::string::StringExecFns;

verus! {

/// Why a client could not be configured.
#[derive(Debug, Clone, Copy, PartialEq, Eq, Structural)]
pub enum ConfigError {
    /// The base URL is not an absolute URL.
    InvalidUrl,
    /// The endpoint is neither encrypted nor on this machine.
    InsecureEndpoint,
}

/// A response whose status is outside the success class. Only the status
/// code is kept; the response body is not.
#[derive(Debug, Clone, Copy, PartialEq, Eq, Structural)]
pub struct StatusFailure {
    pub code: u16,
}

/// The scheme and the host of a parsed URL.
#[derive(Debug, PartialEq, Eq)]
pub struct ParsedUrl {
    pub scheme: String,
    pub host: Option<String>,
}

/// What the URL parser makes of a text: nothing where the text is not an
/// absolute URL, else the URL's scheme and its host, if it has one.
pub uninterp spec fn url_parse(input: Seq<char>) -> Option<(Seq<char>, Option<Seq<char>>)>;

/// What a parsed URL holds.
pub open spec fn parts_of(parsed: Option<ParsedUrl>) -> Option<(Seq<char>, Option<Seq<char>>)> {
    match parsed {
        Some(url) => Some(
            (
                url.scheme@,
                match url.host {
                    Some(host) => Some(host@),
                    None => None,
                },
            ),
        ),
        None => None,
    }
}

/// The hosts that name this machine. The URL parser writes an IPv6 address
/// between brackets.
pub open spec fn is_loopback_host(host: Seq<char>) -> bool {
    ||| host == "localhost"@
    ||| host == "127.0.0.1"@
    ||| host == "::1"@
    ||| host == "[::1]"@
}

/// Whether an endpoint may be talked to: its URL must parse, and unless its
/// host names this machine its scheme must be `https`.
pub open spec fn endpoint_verdict(parts: Option<(Seq<char>, Option<Seq<char>>)>) -> Result<
    (),
    ConfigError,
> {
    match parts {
        None => Err(ConfigError::InvalidUrl),
        Some((scheme, host)) => {
            let name = match host {
                Some(text) => text,
                None => Seq::empty(),
            };
            if is_loopback_host(name) || scheme == "https"@ {
                Ok(())
            } else {
                Err(ConfigError::InsecureEndpoint)
            }
        },
    }
}

/// Whether a status code lies in the success class, 200 to 299.
pub open spec fn status_is_success(code: u16) -> bool {
    200 <= code < 300
}

/// Seconds allowed for a whole request: the remote analysis runs for minutes.
pub const REQUEST_TIMEOUT_SECS: u64 = 600;

/// Seconds allowed for establishing a connection.
pub const CONNECT_TIMEOUT_SECS: u64 = 10;

/// What a client is configured with.
pub struct ClientView {
    pub base_url: Seq<char>,
    pub api_key: Option<Seq<char>>,
}

/// A validated configuration of the transport. Its endpoint is one that may
/// be talked to.
pub struct ApiClient {
    base_url: String,
    api_key: Option<String>,
}

impl View for ApiClient {
    type V = ClientView;

    closed spec fn view(&self) -> ClientView {
        ClientView {
            base_url: self.base_url@,
            api_key: match self.api_key {
                Some(key) => Some(key@),
                None => None,
            },
        }
    }
}

/// Parses a text with `url::Url::parse` and takes the URL's `scheme()` and
/// `host_str()`. The result is a function of the text alone, named
/// `url_parse`.
#[verifier::external_body]
fn parse_url(input: &str) -> (parsed: Option<ParsedUrl>)
    ensures
        parts_of(parsed) == url_parse(input@),
{
    match url::Url::parse(input) {
        Ok(url) => Some(
            ParsedUrl { scheme: url.scheme().to_string(), host: url.host_str().map(str::to_string) },
        ),
        Err(_) => None,
    }
}

fn text_is(text: &[char], word: &str) -> (r: bool)
    ensures
        r == (text@ == word@),
{
    let wanted: Vec<char> = chars_of(word);
    chars_equal(text, wanted.as_slice())
}

/// Decides from a parsed URL whether the endpoint may be talked to.
pub fn check_endpoint(parsed: &Option<ParsedUrl>) -> (r: Result<(), ConfigError>)
    ensures
        r == endpoint_verdict(parts_of(*parsed)),
{
    match parsed {
        None => Err(ConfigError::InvalidUrl),
        Some(url) => {
            let host: Vec<char> = match &url.host {
                Some(text) => chars_of(text.as_str()),
                None => Vec::new(),
            };
            let scheme: Vec<char> = chars_of(url.scheme.as_str());
            let loopback: bool = text_is(host.as_slice(), "localhost") || text_is(
                host.as_slice(),
                "127.0.0.1",
            ) || text_is(host.as_slice(), "::1") || text_is(host.as_slice(), "[::1]");
            if loopback || text_is(scheme.as_slice(), "https") {
                Ok(())
            } else {
                Err(ConfigError::InsecureEndpoint)
            }
        },
    }
}

/// Decides whether a response with this status is a failure.
pub fn check_status(code: u16) -> (r: Result<(), StatusFailure>)
    ensures
        r is Ok <==> status_is_success(code),
        r is Err ==> r == Err::<(), StatusFailure>(StatusFailure { code }),
{
    if 200 <= code && code < 300 {
        Ok(())
    } else {
        Err(StatusFailure { code })
    }
}

impl ApiClient {
    #[verifier::type_invariant]
    closed spec fn endpoint_allowed(&self) -> bool {
        endpoint_verdict(url_parse(self.base_url@)) is Ok
    }

    /// Configures a client for the service at `base_url`, with the bearer
    /// credential if there is one. Fails where the URL does not parse or the
    /// endpoint is neither encrypted nor on this machine.
    pub fn new(base_url: &str, api_key: Option<String>) -> (r: Result<ApiClient, ConfigError>)
        ensures
            match r {
                Ok(client) => {
                    &&& endpoint_verdict(url_parse(base_url@)) is Ok
                    &&& client@.base_url == base_url@
                    &&& client@.api_key == match api_key {
                        Some(key) => Some(key@),
                        None => None,
                    }
                },
                Err(e) => endpoint_verdict(url_parse(base_url@)) == Err::<(), ConfigError>(e),
            },
    {
        let parsed: Option<ParsedUrl> = parse_url(base_url);
        match check_endpoint(&parsed) {
            Ok(_) => Ok(ApiClient { base_url: base_url.to_owned(), api_key }),
            Err(e) => Err(e),
        }
    }

    /// The base URL that the client was configured with. It names an
    /// endpoint that may be talked to.
    pub fn base_url(&self) -> (url: &str)
        ensures
            url@ == self@.base_url,
            endpoint_verdict(url_parse(url@)) is Ok,
    {
        proof {
            use_type_invariant(self);
        }
        self.base_url.as_str()
    }

    /// The address of the health check.
    pub fn health_url(&self) -> (url: String)
        ensures
            url@ == self@.base_url + "/api/health"@,
    {
        let mut url: String = self.base_url.clone();
        url.append("/api/health");
        url
    }

    /// The address of the buffered analysis.
    pub fn analyze_url(&self) -> (url: String)
        ensures
            url@ == self@.base_url + "/api/analyze"@,
    {
        let mut url: String = self.base_url.clone();
        url.append("/api/analyze");
        url
    }

    /// The address of the streamed analysis.
    pub fn stream_url(&self) -> (url: String)
        ensures
            url@ == self@.base_url + "/api/analyze/stream"@,
    {
        let mut url: String = self.base_url.clone();
        url.append("/api/analyze/stream");
        url
    }

    /// The value of the `Authorization` header: the bearer credential, if
    /// the client has one.
    pub fn authorization(&self) -> (header: Option<String>)
        ensures
            match self@.api_key {
                Some(key) => header matches Some(value) && value@ == "Bearer "@ + key,
                None => header is None,
            },
    {
        match &self.api_key {
            Some(key) => {
                let mut value: String = "Bearer ".to_owned();
                value.append(key.as_str());
                Some(value)
            },
            None => None,
        }
    }
}

} // verus!
