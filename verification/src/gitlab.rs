//! GitLab REST API v4: client configuration, request URLs, error mapping,
//! and the conversion of API records into service values.
use vstd::prelude::*;

pub use crate::rpc::{RpcCode, RpcStatus};
use crate::text::{chars_of, decimal, decimal_string, push_char, same_text};
use crate::timestamp::{parse_timestamp, rfc3339_in_range, rfc3339_seconds, Timestamp};

verus! {

// ---------------------------------------------------------------------------
// Errors
// ---------------------------------------------------------------------------

/// GitLab API client errors. `Http` carries the transport error's message.
#[derive(Debug)]
pub enum GitLabError {
    Http(String),
    Api { status: u16, message: String },
    Config(String),
}

impl GitLabError {
    /// The human-readable text of the error.
    pub open spec fn text(&self) -> Seq<char> {
        match self {
            GitLabError::Http(m) => "HTTP request failed: "@ + m@,
            GitLabError::Api { status, message } => "GitLab API error ("@ + decimal(*status as nat) + "): "@
                + message@,
            GitLabError::Config(m) => "Configuration error: "@ + m@,
        }
    }

    /// Renders the error as text.
    pub fn to_string(&self) -> (s: String)
        ensures
            s@ == self.text(),
    {
        match self {
            GitLabError::Http(m) => {
                let mut s = "HTTP request failed: ".to_owned();
                s.append(m.as_str());
                s
            },
            GitLabError::Api { status, message } => {
                let mut s = "GitLab API error (".to_owned();
                let code = decimal_string(*status as u64);
                s.append(code.as_str());
                s.append("): ");
                s.append(message.as_str());
                s
            },
            GitLabError::Config(m) => {
                let mut s = "Configuration error: ".to_owned();
                s.append(m.as_str());
                s
            },
        }
    }
}

/// The RPC code for a GitLab error.
pub open spec fn status_code_for(err: GitLabError) -> RpcCode {
    match err {
        GitLabError::Api { status, .. } => if status == 401 {
            RpcCode::Unauthenticated
        } else if status == 403 {
            RpcCode::PermissionDenied
        } else if status == 404 {
            RpcCode::NotFound
        } else {
            RpcCode::Internal
        },
        GitLabError::Config(_) => RpcCode::FailedPrecondition,
        GitLabError::Http(_) => RpcCode::Unavailable,
    }
}

/// Maps a GitLab error to an RPC status carrying the error's text.
pub fn to_status(err: GitLabError) -> (r: RpcStatus)
    ensures
        r.code == status_code_for(err),
        r.message@ == err.text(),
{
    let message = err.to_string();
    let code = match &err {
        GitLabError::Api { status, .. } => if *status == 401 {
            RpcCode::Unauthenticated
        } else if *status == 403 {
            RpcCode::PermissionDenied
        } else if *status == 404 {
            RpcCode::NotFound
        } else {
            RpcCode::Internal
        },
        GitLabError::Config(_) => RpcCode::FailedPrecondition,
        GitLabError::Http(_) => RpcCode::Unavailable,
    };
    RpcStatus { code, message }
}

// ---------------------------------------------------------------------------
// Outside calls
// ---------------------------------------------------------------------------

/// The standard reason phrase of an HTTP status code (`None` for codes
/// without one), as `reqwest::StatusCode::canonical_reason` gives it from
/// its fixed table.
pub uninterp spec fn canonical_reason(status: u16) -> Option<Seq<char>>;

/// Calls `reqwest::StatusCode::from_u16`, which accepts exactly the codes
/// 100 to 999, and then `canonical_reason` on the code; the phrase is named
/// by `canonical_reason`.
#[verifier::external_body]
fn reason_phrase(status: u16) -> (r: Option<String>)
    requires
        100 <= status <= 999,
    ensures
        match r {
            Some(p) => canonical_reason(status) == Some(p@),
            None => canonical_reason(status) is None,
        },
{
    match reqwest::StatusCode::from_u16(status) {
        Ok(code) => code.canonical_reason().map(|p| p.to_owned()),
        Err(_) => None,
    }
}

/// A character that an HTTP header value may hold: a tab, or any character
/// from the space up other than DEL (characters beyond ASCII encode to bytes
/// of 0x80 and up, which are accepted).
pub open spec fn header_char_ok(c: char) -> bool {
    c == '\t' || (32 <= (c as u32) && (c as u32) != 127)
}

/// Calls `reqwest::header::HeaderValue::from_str` and reports whether it
/// accepted the text. The source accepts exactly the strings whose every
/// byte is a tab or at least 32 and not 127, which in characters is
/// `header_char_ok` for each.
#[verifier::external_body]
fn header_value_accepts(value: &str) -> (r: bool)
    ensures
        r == (forall|i: int| 0 <= i < value@.len() ==> header_char_ok(#[trigger] value@[i])),
{
    reqwest::header::HeaderValue::from_str(value).is_ok()
}

// ---------------------------------------------------------------------------
// Client configuration and URLs
// ---------------------------------------------------------------------------

/// Configuration for connecting to a GitLab instance.
#[derive(Debug, Clone)]
pub struct GitLabConfig {
    /// Instance URL, such as `https://gitlab.com`.
    pub base_url: String,
    /// Personal access or OAuth token.
    pub token: String,
}

/// `s` without trailing slashes.
pub open spec fn trim_end_slashes(s: Seq<char>) -> Seq<char>
    decreases s.len(),
{
    if s.len() > 0 && s.last() == '/' {
        trim_end_slashes(s.drop_last())
    } else {
        s
    }
}

/// A project path with each `/` written as `%2F`.
pub open spec fn encoded_project(s: Seq<char>) -> Seq<char>
    decreases s.len(),
{
    if s.len() == 0 {
        Seq::empty()
    } else if s.last() == '/' {
        encoded_project(s.drop_last()) + seq!['%', '2', 'F']
    } else {
        encoded_project(s.drop_last()).push(s.last())
    }
}

/// Every character of the token may stand in a header value.
pub open spec fn token_ok(token: Seq<char>) -> bool {
    forall|i: int| 0 <= i < token.len() ==> header_char_ok(#[trigger] token[i])
}

/// What is wrong with a configuration, if anything: the message of the
/// configuration error that building a client gives.
pub open spec fn config_problem(config: GitLabConfig) -> Option<Seq<char>> {
    if config.base_url@.len() == 0 {
        Some("base_url is empty"@)
    } else if config.token@.len() == 0 {
        Some("token is empty"@)
    } else if !token_ok(config.token@) {
        Some("Invalid token format"@)
    } else {
        None
    }
}

/// The message of the API error for a status code: its reason phrase, or
/// `Unknown`.
pub open spec fn reason_or_unknown(status: u16) -> Seq<char> {
    match canonical_reason(status) {
        Some(p) => p,
        None => "Unknown"@,
    }
}

/// The addresses of a GitLab instance's REST API v4. The transport itself
/// (the HTTP client with its bearer token) is held by the caller.
#[derive(Debug)]
pub struct GitLabClient {
    base_url: String,
}

impl GitLabClient {
    /// The instance URL without trailing slashes.
    pub closed spec fn base(&self) -> Seq<char> {
        self.base_url@
    }

    /// Checks a configuration: the base URL and the token must be non-empty
    /// and `Bearer <token>` must be a valid header value. The client keeps
    /// the base URL without trailing slashes.
    pub fn new(config: &GitLabConfig) -> (r: Result<GitLabClient, GitLabError>)
        ensures
            match r {
                Ok(c) => config_problem(*config) is None && c.base() == trim_end_slashes(config.base_url@),
                Err(GitLabError::Config(m)) => config_problem(*config) == Some(m@),
                Err(_) => false,
            },
    {
        if config.base_url.as_str().is_empty() {
            return Err(GitLabError::Config("base_url is empty".to_owned()));
        }
        if config.token.as_str().is_empty() {
            return Err(GitLabError::Config("token is empty".to_owned()));
        }
        let mut header = "Bearer ".to_owned();
        header.append(config.token.as_str());
        let ok = header_value_accepts(header.as_str());
        proof {
            reveal_strlit("Bearer ");
            let prefix = "Bearer "@;
            assert(header@ == prefix + config.token@);
            if ok {
                assert forall|i: int| 0 <= i < config.token@.len() implies header_char_ok(
                    #[trigger] config.token@[i],
                ) by {
                    assert(header@[i + 7] == config.token@[i]);
                }
            } else {
                let j = choose|j: int| 0 <= j < header@.len() && !header_char_ok(#[trigger] header@[j]);
                assert(j >= 7);
                assert(header@[j] == config.token@[j - 7]);
            }
        }
        if !ok {
            return Err(GitLabError::Config("Invalid token format".to_owned()));
        }
        let base_url = trim_slashes(config.base_url.as_str());
        Ok(GitLabClient { base_url })
    }

    /// The API v4 URL for a path: `<base>/api/v4<path>`.
    pub fn api_url(&self, path: &str) -> (r: String)
        ensures
            r@ == self.base() + "/api/v4"@ + path@,
    {
        let mut r = self.base_url.clone();
        r.append("/api/v4");
        r.append(path);
        r
    }

    /// A project path with each `/` written as `%2F`.
    pub fn encode_project(project: &str) -> (r: String)
        ensures
            r@ == encoded_project(project@),
    {
        let cs = chars_of(project);
        let mut r = String::new();
        let mut i: usize = 0;
        while i < cs.len()
            invariant
                i <= cs.len(),
                cs@ == project@,
                r@ == encoded_project(project@.take(i as int)),
            decreases cs.len() - i,
        {
            assert(project@.take(i as int + 1).drop_last() =~= project@.take(i as int));
            if cs[i] == '/' {
                push_char(&mut r, '%');
                push_char(&mut r, '2');
                push_char(&mut r, 'F');
                assert(r@ =~= encoded_project(project@.take(i as int)) + seq!['%', '2', 'F']);
            } else {
                push_char(&mut r, cs[i]);
            }
            i = i + 1;
        }
        assert(project@.take(cs.len() as int) =~= project@);
        r
    }

    /// The URL of a resource of a project:
    /// `<base>/api/v4/projects/<encoded project>/<resource>`.
    pub fn project_url(&self, project: &str, resource: &str) -> (r: String)
        ensures
            r@ == self.base() + "/api/v4"@ + "/projects/"@ + encoded_project(project@) + "/"@ + resource@,
    {
        let mut path = "/projects/".to_owned();
        let encoded = GitLabClient::encode_project(project);
        path.append(encoded.as_str());
        path.append("/");
        path.append(resource);
        self.api_url(path.as_str())
    }

    /// The URL of one page of a project's resource list, with an optional
    /// filter: `<project url>?per_page=N&page=M[&<key>=<value>]`.
    pub fn list_url(
        &self,
        project: &str,
        resource: &str,
        filter_key: &str,
        filter_value: Option<&str>,
        per_page: u32,
        page: u32,
    ) -> (r: String)
        ensures
            r@ == self.base() + "/api/v4"@ + "/projects/"@ + encoded_project(project@) + "/"@ + resource@
                + "?per_page="@ + decimal(per_page as nat) + "&page="@ + decimal(page as nat) + match filter_value {
                Some(v) => "&"@ + filter_key@ + "="@ + v@,
                None => Seq::empty(),
            },
    {
        let mut url = self.project_url(project, resource);
        url.append("?per_page=");
        let pp = decimal_string(per_page as u64);
        url.append(pp.as_str());
        url.append("&page=");
        let pg = decimal_string(page as u64);
        url.append(pg.as_str());
        match filter_value {
            Some(v) => {
                url.append("&");
                url.append(filter_key);
                url.append("=");
                url.append(v);
            },
            None => {},
        }
        url
    }

    /// The path of one item of a resource: `<resource>/<id>`.
    pub fn item_path(resource: &str, id: u64) -> (r: String)
        ensures
            r@ == resource@ + "/"@ + decimal(id as nat),
    {
        let mut r = resource.to_owned();
        r.append("/");
        let n = decimal_string(id);
        r.append(n.as_str());
        r
    }

    /// Checks a response status: success (200 to 299) passes; any other
    /// code is an API error carrying the code and its reason phrase, or
    /// `Unknown` where the code has none.
    pub fn check_status(status: u16) -> (r: Result<(), GitLabError>)
        requires
            100 <= status <= 999,
        ensures
            match r {
                Ok(()) => 200 <= status < 300,
                Err(GitLabError::Api { status: s, message }) => !(200 <= status < 300) && s == status && message@
                    == reason_or_unknown(status),
                Err(_) => false,
            },
    {
        if 200 <= status && status < 300 {
            return Ok(());
        }
        let message = match reason_phrase(status) {
            Some(p) => p,
            None => "Unknown".to_owned(),
        };
        Err(GitLabError::Api { status, message })
    }
}

fn trim_slashes(s: &str) -> (r: String)
    ensures
        r@ == trim_end_slashes(s@),
{
    let cs = chars_of(s);
    let mut b: usize = cs.len();
    assert(s@.take(b as int) =~= s@);
    while b > 0 && cs[b - 1] == '/'
        invariant
            b <= cs.len(),
            cs@ == s@,
            trim_end_slashes(s@) == trim_end_slashes(s@.take(b as int)),
        decreases b,
    {
        assert(s@.take(b as int).drop_last() =~= s@.take(b as int - 1));
        b = b - 1;
    }
    let mut r = String::new();
    let mut i: usize = 0;
    while i < b
        invariant
            i <= b <= cs.len(),
            cs@ == s@,
            r@ == s@.take(i as int),
        decreases b - i,
    {
        push_char(&mut r, cs[i]);
        assert(r@ =~= s@.take(i as int + 1));
        i = i + 1;
    }
    r
}

} // verus!
