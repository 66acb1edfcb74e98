//! URL parsing and joining, done by the `url` crate.

use vstd::prelude::*;

verus! {

/// What `url::Url::parse` makes of a text: scheme, host, port (given or the
/// scheme's default), path and query, or the parser's error message.
pub uninterp spec fn url_parse_of(s: Seq<char>) -> Result<
    (Seq<char>, Option<Seq<char>>, Option<u16>, Seq<char>, Option<Seq<char>>),
    Seq<char>,
>;

/// What `url::Url::join` makes of a reference read against a base URL: the
/// absolute URL, or the parser's error message.
pub uninterp spec fn url_join_of(base: Seq<char>, reference: Seq<char>) -> Result<Seq<char>, Seq<char>>;

/// The parts of a parsed URL that a request needs.
pub struct UrlParts {
    pub scheme: String,
    pub host: Option<String>,
    pub port: Option<u16>,
    pub path: String,
    pub query: Option<String>,
}

pub open spec fn opt_view(o: Option<String>) -> Option<Seq<char>> {
    match o {
        Some(s) => Some(s@),
        None => None,
    }
}

/// Relies on `url::Url::parse` and its accessors `scheme`, `host_str`,
/// `port_or_known_default`, `path` and `query`; the result depends on the
/// text alone.
#[verifier::external_body]
pub(crate) fn parse_url(s: &str) -> (r: Result<UrlParts, String>)
    ensures
        match (r, url_parse_of(s@)) {
            (Ok(p), Ok((scheme, host, port, path, query))) => p.scheme@ == scheme && opt_view(p.host) == host
                && p.port == port && p.path@ == path && opt_view(p.query) == query,
            (Err(e), Err(m)) => e@ == m,
            _ => false,
        },
{
    match url::Url::parse(s) {
        Ok(u) => Ok(UrlParts {
            scheme: u.scheme().to_string(),
            host: u.host_str().map(String::from),
            port: u.port_or_known_default(),
            path: u.path().to_string(),
            query: u.query().map(String::from),
        }),
        Err(e) => Err(e.to_string()),
    }
}

/// Relies on `url::Url::parse` of the base and `url::Url::join`: the
/// reference made absolute; the result depends on the two texts alone.
#[verifier::external_body]
pub(crate) fn join_url(base: &str, reference: &str) -> (r: Result<String, String>)
    ensures
        match (r, url_join_of(base@, reference@)) {
            (Ok(u), Ok(v)) => u@ == v,
            (Err(e), Err(m)) => e@ == m,
            _ => false,
        },
{
    match url::Url::parse(base) {
        Ok(b) => match b.join(reference) {
            Ok(u) => Ok(u.as_str().to_string()),
            Err(e) => Err(e.to_string()),
        },
        Err(e) => Err(e.to_string()),
    }
}

} // verus!
