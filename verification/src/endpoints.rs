//! The list of known endpoints, and choosing one of them.

use crate::text::{concat3, equal, has_prefix, starts_with};
use vstd::prelude::*;

verus! {

/// One entry of the list of known endpoints.
#[derive(Debug, Clone, PartialEq, Eq)]
pub struct EndpointsYmlEntry {
    pub title: String,
    pub osm: Option<String>,
    pub wd: Option<String>,
    pub url: String,
    pub description: Option<String>,
}

/// Where the list of known endpoints is published.
pub const ENDPOINTS_URL: &'static str =
    "https://raw.githubusercontent.com/OParl/resources/master/endpoints.yml";

/// The mirror, which a run over all endpoints leaves out.
pub const MIRROR_URL: &'static str = "https://mirror.oparl.org/system";

/// Whether the argument is itself a URL, and not the title of an endpoint.
pub fn is_url(name_or_url: &str) -> (r: bool)
    ensures
        r == has_prefix(name_or_url@, "http"@),
{
    starts_with(name_or_url, "http")
}

/// Index of the first of the first `n` endpoints with this title, or `n`.
pub open spec fn title_index(endpoints: Seq<EndpointsYmlEntry>, n: nat, title: Seq<char>) -> nat
    decreases n,
{
    if n == 0 || n > endpoints.len() {
        n
    } else {
        let before = title_index(endpoints, (n - 1) as nat, title);
        if before < n - 1 {
            before
        } else if endpoints[n - 1].title@ == title {
            (n - 1) as nat
        } else {
            n
        }
    }
}

/// The URL of the first endpoint with this title, where there is one.
pub open spec fn url_of(endpoints: Seq<EndpointsYmlEntry>, title: Seq<char>) -> Option<Seq<char>> {
    let i = title_index(endpoints, endpoints.len(), title);
    if i < endpoints.len() {
        Some(endpoints[i as int].url@)
    } else {
        None
    }
}

/// Looks up the endpoint with this title: the first one, where several have it.
pub fn find_endpoint(endpoints: &Vec<EndpointsYmlEntry>, title: &str) -> (r: Option<String>)
    ensures
        match r {
            Some(url) => url_of(endpoints@, title@) == Some(url@),
            None => url_of(endpoints@, title@) is None,
        },
{
    let mut i: usize = 0;
    while i < endpoints.len()
        invariant
            i <= endpoints@.len(),
            title_index(endpoints@, i as nat, title@) == i,
        decreases endpoints@.len() - i,
    {
        if equal(endpoints[i].title.as_str(), title) {
            proof {
                lemma_title_index_stays(endpoints@, i as nat, endpoints@.len(), title@);
            }
            return Some(endpoints[i].url.clone());
        }
        i += 1;
    }
    None
}

/// An index found among the first `n + 1` endpoints is the index among the first `m`.
proof fn lemma_title_index_stays(
    endpoints: Seq<EndpointsYmlEntry>,
    n: nat,
    m: nat,
    title: Seq<char>,
)
    requires
        n < m <= endpoints.len(),
        title_index(endpoints, n, title) == n,
        endpoints[n as int].title@ == title,
    ensures
        title_index(endpoints, m, title) == n,
    decreases m,
{
    if m > n + 1 {
        lemma_title_index_stays(endpoints, n, (m - 1) as nat, title);
    }
}

/// What is reported where no endpoint has the title that was asked for.
pub fn unknown_endpoint(title: &str) -> (r: String)
    ensures
        r@ == "No endpoint with name '"@ + title@ + "' found"@,
{
    concat3("No endpoint with name '", title, "' found")
}

} // verus!
