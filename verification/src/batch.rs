//! Running over all known endpoints: which of them to validate, and how the
//! files of each are named.

use crate::endpoints::{EndpointsYmlEntry, MIRROR_URL};
use crate::text::{concat2, equal};
use vstd::prelude::*;

verus! {

/// The slug of a title: the title in lower-case ASCII letters and digits,
/// with single dashes where anything else stood, and none at either end.
pub uninterp spec fn slug_text(title: Seq<char>) -> Seq<char>;

/// Calls `slug::slugify`. Trusted: the result is the slug of `title`, which
/// depends on `title` alone.
#[verifier::external_body]
fn slugify(title: &str) -> (r: String)
    ensures
        r@ == slug_text(title@),
{
    slug::slugify(title)
}

/// The name of the text file with this stem.
pub fn text_file_name(stem: &str) -> (r: String)
    ensures
        r@ == stem@ + ".txt"@,
{
    concat2(stem, ".txt")
}

/// The name of the file that holds the report, or the log, of the endpoint
/// with this title.
pub fn report_file_name(title: &str) -> (r: String)
    ensures
        r@ == slug_text(title@) + ".txt"@,
{
    let slug = slugify(title);
    text_file_name(slug.as_str())
}

/// An endpoint to validate.
#[derive(Debug, PartialEq, Eq)]
pub struct Target {
    pub title: String,
    pub url: String,
}

/// Mathematical value of a [`Target`].
pub struct TargetView {
    pub title: Seq<char>,
    pub url: Seq<char>,
}

impl View for Target {
    type V = TargetView;

    open spec fn view(&self) -> TargetView {
        TargetView { title: self.title@, url: self.url@ }
    }
}

/// Views of a sequence of targets.
pub open spec fn targets_view(v: Seq<Target>) -> Seq<TargetView> {
    v.map_values(|t: Target| t@)
}

/// The targets among the first `n` endpoints: all of them but the mirror, in order.
pub open spec fn targets_of(endpoints: Seq<EndpointsYmlEntry>, n: nat) -> Seq<TargetView>
    decreases n,
{
    if n == 0 || n > endpoints.len() {
        Seq::empty()
    } else {
        let rest = targets_of(endpoints, (n - 1) as nat);
        if endpoints[n - 1].url@ == MIRROR_URL@ {
            rest
        } else {
            rest.push(TargetView { title: endpoints[n - 1].title@, url: endpoints[n - 1].url@ })
        }
    }
}

/// The endpoints that a run over all of them validates: every known endpoint
/// but the mirror, which is large and repeats the others.
pub fn batch_targets(endpoints: &Vec<EndpointsYmlEntry>) -> (r: Vec<Target>)
    ensures
        targets_view(r@) == targets_of(endpoints@, endpoints@.len()),
{
    let mut targets: Vec<Target> = Vec::new();
    let mut i: usize = 0;
    assert(targets_view(targets@) =~= Seq::empty());
    while i < endpoints.len()
        invariant
            i <= endpoints@.len(),
            targets_view(targets@) == targets_of(endpoints@, i as nat),
        decreases endpoints@.len() - i,
    {
        if !equal(endpoints[i].url.as_str(), MIRROR_URL) {
            let ghost before = targets@;
            let target = Target { title: endpoints[i].title.clone(), url: endpoints[i].url.clone() };
            targets.push(target);
            assert(targets_view(targets@) =~= targets_view(before).push(target@));
        }
        i += 1;
    }
    targets
}

} // verus!
