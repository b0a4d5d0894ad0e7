//! The parts of a source URL that decide where its payload is written.
use vstd::prelude::*;

verus! {

/// Whether the url crate accepts `s` as an absolute URL.
pub uninterp spec fn url_parses(s: Seq<char>) -> bool;

/// The host that the url crate reports for the URL parsed from `s`.
pub uninterp spec fn url_host(s: Seq<char>) -> Option<Seq<char>>;

/// The path segments that the url crate reports for the URL parsed from `s`.
pub uninterp spec fn url_path_segments(s: Seq<char>) -> Option<Seq<Seq<char>>>;

/// A URL as the host and the `/`-separated path segments it carries.
/// Either may be absent, as for URLs that cannot serve as a base.
pub struct UrlParts {
    pub host: Option<String>,
    pub segments: Option<Vec<String>>,
}

/// The characters of each string of `v`.
pub open spec fn strings_view(v: Seq<String>) -> Seq<Seq<char>> {
    v.map_values(|x: String| x@)
}

impl UrlParts {
    pub open spec fn host_view(&self) -> Option<Seq<char>> {
        match self.host {
            Some(h) => Some(h@),
            None => None,
        }
    }

    pub open spec fn segments_view(&self) -> Option<Seq<Seq<char>>> {
        match self.segments {
            Some(v) => Some(strings_view(v@)),
            None => None,
        }
    }

    /// Parses `s` as an absolute URL; `None` where it is not one.
    pub fn parse(s: &str) -> (r: Option<UrlParts>)
        ensures
            r is Some <==> url_parses(s@),
            r matches Some(u) ==> u.host_view() == url_host(s@) && u.segments_view()
                == url_path_segments(s@),
    {
        parse_url(s)
    }
}

/// Relies on url::Url::parse to read `s`, then on Url::host_str and
/// Url::path_segments for the host and the path's segments.
#[verifier::external_body]
fn parse_url(s: &str) -> (r: Option<UrlParts>)
    ensures
        r is Some <==> url_parses(s@),
        r matches Some(u) ==> u.host_view() == url_host(s@) && u.segments_view()
            == url_path_segments(s@),
{
    let u = url::Url::parse(s).ok()?;
    Some(UrlParts {
        host: u.host_str().map(|h| h.to_string()),
        segments: u.path_segments().map(|p| p.map(|x| x.to_string()).collect()),
    })
}

} // verus!
