//! Naming cache entries: a cache that assumes that all URLs of one endpoint
//! share a prefix files each page under what follows the prefix.

use crate::text::{strip_prefix, trim_end, trimmed_end, without_prefix};
use vstd::prelude::*;

verus! {

/// The last segment of an entry point's URL, which the shared prefix leaves out.
pub const ENTRY_SEGMENT: &'static str = "system";

/// The key under which the statuses of probed URLs are kept between runs.
pub const MISSING_IDS_KEY: &'static str = "missing_ids.json";

/// The key under which the list of known endpoints is kept.
pub const ENDPOINTS_KEY: &'static str = "endpoints.yml";

/// The prefix that the URLs of an endpoint share: the entry point without
/// its closing `system`.
pub fn cache_prefix(entrypoint: &str) -> (r: String)
    ensures
        r@ == trimmed_end(entrypoint@, ENTRY_SEGMENT@),
{
    String::from_str(trim_end(entrypoint, ENTRY_SEGMENT))
}

/// The part of `url` that names its cache entry: what follows `prefix`.
/// There is none for a URL that does not start with `prefix`.
pub fn cache_key(prefix: &str, url: &str) -> (r: Option<String>)
    ensures
        match r {
            Some(key) => without_prefix(url@, prefix@) == Some(key@),
            None => without_prefix(url@, prefix@) is None,
        },
{
    match strip_prefix(url, prefix) {
        Some(rest) => Some(String::from_str(rest)),
        None => None,
    }
}

/// What is reported for a URL that does not start with the prefix.
pub fn prefix_error(prefix: &str, url: &str) -> (r: String)
    ensures
        r@ == url@ + " does not start with prefix "@ + prefix@,
{
    crate::text::concat3(url, " does not start with prefix ", prefix)
}

} // verus!
