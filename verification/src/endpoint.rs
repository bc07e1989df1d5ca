//! Which broker a URL leads to, and as whom.

use crate::text::{decimal, digits, opt_text, push_u64, same_text};
use shvrpc::util::parse_query_params;
use url::Url;
use vstd::prelude::*;

verus! {

/// The parts of a URL that tell where the broker is.
#[derive(Debug, PartialEq, Eq)]
pub struct UrlParts {
    pub scheme: String,
    pub host: Option<String>,
    pub port: Option<u16>,
    pub path: String,
}

/// The contents of a `UrlParts`.
pub struct UrlView {
    pub scheme: Seq<char>,
    pub host: Option<Seq<char>>,
    pub port: Option<u16>,
    pub path: Seq<char>,
}

impl View for UrlParts {
    type V = UrlView;

    open spec fn view(&self) -> UrlView {
        UrlView {
            scheme: self.scheme@,
            host: opt_text(self.host),
            port: self.port,
            path: self.path@,
        }
    }
}

/// What `Url::parse` makes of a text: the parts that the client reads, or the words of its error.
pub uninterp spec fn url_parts(text: Seq<char>) -> Result<UrlView, Seq<char>>;

/// The contents of the outcome of reading a URL.
pub open spec fn url_outcome(r: Result<UrlParts, String>) -> Result<UrlView, Seq<char>> {
    match r {
        Ok(u) => Ok(u@),
        Err(e) => Err(e@),
    }
}

/// `Url::parse`: reads a URL. What is read is a function of the text alone.
#[verifier::external_body]
fn parse_url(text: &str) -> (r: Result<UrlParts, String>)
    ensures
        url_outcome(r) == url_parts(text@),
{
    Url::parse(text)
        .map(|url| UrlParts {
            scheme: url.scheme().to_owned(),
            host: url.host_str().map(str::to_owned),
            port: url.port(),
            path: url.path().to_owned(),
        })
        .map_err(|err| err.to_string())
}

/// The user and the password that `parse_query_params` finds in a URL.
pub uninterp spec fn url_login(text: Seq<char>) -> (Seq<char>, Seq<char>);

/// `shvrpc::util::parse_query_params`: the user and the password in a URL, each from the query or
/// else from before the host.
#[verifier::external_body]
fn login_from_url(text: &str) -> (r: (String, String))
    requires
        url_parts(text@) is Ok,
    ensures
        (r.0@, r.1@) == url_login(text@),
{
    let params = parse_query_params(&Url::parse(text).unwrap());
    (params.user, params.password)
}

/// Where a broker is and how frames travel to it.
#[derive(Debug, PartialEq, Eq)]
pub enum Endpoint {
    /// A TCP address, frames as a stream.
    Tcp(String),
    /// A local socket, frames as a stream.
    Local(String),
    /// A local socket, frames as on a serial line without checksums.
    LocalSerial(String),
}

/// The contents of an `Endpoint`.
pub enum EndpointView {
    Tcp(Seq<char>),
    Local(Seq<char>),
    LocalSerial(Seq<char>),
}

impl View for Endpoint {
    type V = EndpointView;

    open spec fn view(&self) -> EndpointView {
        match self {
            Endpoint::Tcp(address) => EndpointView::Tcp(address@),
            Endpoint::Local(path) => EndpointView::Local(path@),
            Endpoint::LocalSerial(path) => EndpointView::LocalSerial(path@),
        }
    }
}

/// Whether the client knows the scheme.
pub open spec fn known_scheme(scheme: Seq<char>) -> bool {
    scheme == "tcp"@ || scheme == "unix"@ || scheme == "localsocket"@ || scheme == "unixs"@
}

/// Whether the client knows the scheme.
pub fn is_known_scheme(scheme: &str) -> (r: bool)
    ensures
        r == known_scheme(scheme@),
{
    same_text(scheme, "tcp") || same_text(scheme, "unix") || same_text(scheme, "localsocket")
        || same_text(scheme, "unixs")
}

/// The broker that the parts of a URL lead to. A TCP address without a host is on this machine,
/// one without a port has the port of the broker.
pub open spec fn endpoint_of(url: UrlView) -> EndpointView {
    if url.scheme == "tcp"@ {
        let host = match url.host {
            Some(h) => h,
            None => "localhost"@,
        };
        let port = match url.port {
            Some(p) => p as int,
            None => 3755,
        };
        EndpointView::Tcp(host + ":"@ + decimal(port))
    } else if url.scheme == "unixs"@ {
        EndpointView::LocalSerial(url.path)
    } else {
        EndpointView::Local(url.path)
    }
}

/// Gives the broker that the parts of a URL lead to.
pub fn find_endpoint(url: &UrlParts) -> (r: Endpoint)
    requires
        known_scheme(url@.scheme),
    ensures
        r@ == endpoint_of(url@),
{
    if same_text(url.scheme.as_str(), "tcp") {
        let mut address = match &url.host {
            Some(h) => h.clone(),
            None => "localhost".to_owned(),
        };
        address.append(":");
        let port: u16 = match url.port {
            Some(p) => p,
            None => 3755,
        };
        push_u64(&mut address, port as u64);
        Endpoint::Tcp(address)
    } else if same_text(url.scheme.as_str(), "unixs") {
        Endpoint::LocalSerial(url.path.clone())
    } else {
        Endpoint::Local(url.path.clone())
    }
}

/// How to log in to a broker.
#[derive(Debug, PartialEq, Eq)]
pub struct LoginPlan {
    pub endpoint: Endpoint,
    pub user: String,
    pub password: String,
    /// Whether the session is reset first.
    pub reset_session: bool,
}

/// Why no broker can be logged in to.
#[derive(Debug, PartialEq, Eq)]
pub enum LoginError {
    /// The text is no URL.
    Url(String),
    /// The client does not know the scheme.
    Scheme(String),
}

/// Reads from a URL how to log in to a broker. The session is reset where frames travel as on a
/// serial line.
pub fn plan_login(url: &str) -> (r: Result<LoginPlan, LoginError>)
    ensures
        match (url_parts(url@), r) {
            (Ok(parts), Ok(plan)) => {
                &&& known_scheme(parts.scheme)
                &&& plan.endpoint@ == endpoint_of(parts)
                &&& (plan.user@, plan.password@) == url_login(url@)
                &&& plan.reset_session == (plan.endpoint is LocalSerial)
            },
            (Ok(parts), Err(LoginError::Scheme(e))) => {
                &&& !known_scheme(parts.scheme)
                &&& e@ == "Scheme "@ + parts.scheme + " is not supported"@
            },
            (Err(e), Err(LoginError::Url(error))) => error@ == e,
            _ => false,
        },
{
    let parts = match parse_url(url) {
        Ok(parts) => parts,
        Err(e) => {
            return Err(LoginError::Url(e));
        },
    };
    if !is_known_scheme(parts.scheme.as_str()) {
        let mut s = "Scheme ".to_owned();
        s.append(parts.scheme.as_str());
        s.append(" is not supported");
        return Err(LoginError::Scheme(s));
    }
    let endpoint = find_endpoint(&parts);
    let reset_session = matches!(&endpoint, Endpoint::LocalSerial(_));
    let (user, password) = login_from_url(url);
    Ok(LoginPlan { endpoint, user, password, reset_session })
}

/// A URL leads to one broker: `tcp` to a host and a port, this machine and 3755 where they are
/// not given, `unix` and `localsocket` to a local socket, and `unixs` to one with serial frames,
/// where alone the session is reset. User and password are those in the URL. Another scheme and
/// a text that is no URL lead nowhere.
pub proof fn law_a_url_leads_to_its_broker(url: &str, r: Result<LoginPlan, LoginError>)
    requires
        call_ensures(plan_login, (url,), r),
    ensures
        url_parts(url@) matches Err(e) ==> (r matches Err(LoginError::Url(error)) && error@ == e),
        url_parts(url@) matches Ok(u) ==> {
            let known = u.scheme == "tcp"@ || u.scheme == "unix"@ || u.scheme == "unixs"@
                || u.scheme == "localsocket"@;
            &&& known ==> (r matches Ok(plan) && plan.user@ == url_login(url@).0
                && plan.password@ == url_login(url@).1 && plan.reset_session == (u.scheme
                == "unixs"@))
            &&& u.scheme == "tcp"@ ==> (r matches Ok(plan) && plan.endpoint matches Endpoint::Tcp(a)
                && match (u.host, u.port) {
                (Some(host), Some(port)) => a@ == host + ":"@ + decimal(port as int),
                (Some(host), None) => a@ == host + ":3755"@,
                (None, Some(port)) => a@ == "localhost:"@ + decimal(port as int),
                (None, None) => a@ == "localhost:3755"@,
            })
            &&& u.scheme == "unix"@ || u.scheme == "localsocket"@ ==> (r matches Ok(plan)
                && plan.endpoint matches Endpoint::Local(path) && path@ == u.path)
            &&& u.scheme == "unixs"@ ==> (r matches Ok(plan)
                && plan.endpoint matches Endpoint::LocalSerial(path) && path@ == u.path)
            &&& !known ==> (r matches Err(LoginError::Scheme(error)) && error@ == "Scheme "@
                + u.scheme + " is not supported"@)
        },
{
    reveal_strlit("tcp");
    reveal_strlit("unix");
    reveal_strlit("unixs");
    reveal_strlit("localsocket");
    reveal_strlit("localhost");
    reveal_strlit("localhost:");
    reveal_strlit("localhost:3755");
    reveal_strlit(":");
    reveal_strlit(":3755");
    reveal_strlit("3755");
    lemma_broker_port();
    if let Ok(u) = url_parts(url@) {
        if u.scheme == "tcp"@ {
            assert("localhost"@ + ":"@ =~= "localhost:"@);
            if u.port is None {
                assert(":"@ + decimal(3755) =~= ":3755"@);
                if let Some(host) = u.host {
                    assert(host + ":"@ + decimal(3755) =~= host + ":3755"@);
                } else {
                    assert("localhost"@ + ":"@ + decimal(3755) =~= "localhost:3755"@);
                }
            }
        } else {
            assert("unix"@.len() != "unixs"@.len());
            assert("localsocket"@.len() != "unixs"@.len());
            assert(u.scheme == "unix"@ ==> u.scheme != "unixs"@);
        }
        assert("tcp"@.len() != "unix"@.len());
        assert("tcp"@.len() != "unixs"@.len());
        assert("tcp"@.len() != "localsocket"@.len());
    }
}

/// The port of the broker as it is written.
proof fn lemma_broker_port()
    ensures
        decimal(3755) == "3755"@,
{
    reveal_strlit("3755");
    reveal_with_fuel(digits, 5);
    assert(digits(3) =~= seq!['3']);
    assert(digits(37) =~= seq!['3', '7']);
    assert(digits(375) =~= seq!['3', '7', '5']);
    assert(digits(3755) =~= seq!['3', '7', '5', '5']);
    assert(decimal(3755) =~= "3755"@);
}

} // verus!
