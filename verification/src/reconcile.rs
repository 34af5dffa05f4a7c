//! Reconciling references with listings: which referenced objects were seen
//! in no list, which of them have to be probed, and how each is reported
//! once its reachability is known.
//!
//! The probes themselves are the caller's: the [`Reconciler`] hands out the
//! URLs to probe, never more than [`MAX_CONCURRENT_PROBES`] at a time, takes
//! the results in whatever order they arrive, and then writes the findings.

use crate::storage::{
    lemma_apply_nothing, links_view, problems_view, texts_view, Link, LinkView, Storage,
    StorageView, StoreOp,
};
use crate::text::{
    concat4, decimal, decimal_text, equal, lemma_text_less_irreflexive, lemma_text_less_total,
    lemma_text_less_transitive, less, text_less,
};
use crate::visit::{KindView, Problem, ProblemKind, ProblemView};
use vstd::prelude::*;

verus! {

/// How many probes may be under way at the same time.
pub const MAX_CONCURRENT_PROBES: usize = 50;

/// Whether the object at `url` could be fetched on its own.
#[derive(Debug, Clone, PartialEq, Eq)]
pub struct ProbeStatus {
    pub url: String,
    pub reachable: bool,
}

/// The statuses as a map from URL to reachability; of two entries for one
/// URL the later one counts.
pub open spec fn status_map(entries: Seq<ProbeStatus>) -> Map<Seq<char>, bool>
    decreases entries.len(),
{
    if entries.len() == 0 {
        Map::empty()
    } else {
        status_map(entries.drop_last()).insert(entries.last().url@, entries.last().reachable)
    }
}

#[verifier::external_type_specification]
#[verifier::external_body]
pub struct ExJsonError(serde_json::Error);

/// The statuses that a JSON text holds: the map from its keys to its values
/// where the text is a JSON object whose values are all truth values (of two
/// members with one key the later one counts), and nothing for any other text.
pub uninterp spec fn decoded_statuses(bytes: Seq<u8>) -> Option<Map<Seq<char>, bool>>;

/// The JSON text of statuses: an object with one member for each URL, its
/// keys in ascending order, without white space.
pub uninterp spec fn encoded_statuses(statuses: Map<Seq<char>, bool>) -> Seq<u8>;

/// Calls `serde_json::from_slice` for a map from `String` to `bool`. Trusted:
/// the call succeeds exactly on the texts that hold statuses, and the
/// entries handed out then make up the map that the text holds.
#[verifier::external_body]
fn decode_statuses(bytes: &[u8]) -> (r: Result<Vec<ProbeStatus>, serde_json::Error>)
    ensures
        match r {
            Ok(entries) => decoded_statuses(bytes@) == Some(status_map(entries@)),
            Err(_) => decoded_statuses(bytes@) is None,
        },
{
    let map: std::collections::HashMap<String, bool> = serde_json::from_slice(bytes)?;
    Ok(map.into_iter().map(|(url, reachable)| ProbeStatus { url, reachable }).collect())
}

/// The URLs of `entries` ascend strictly, so that no URL stands twice.
pub open spec fn urls_ascend(entries: Seq<ProbeStatus>) -> bool {
    forall|i: int, j: int|
        0 <= i < j < entries.len() ==> text_less(
            (#[trigger] entries[i]).url@,
            (#[trigger] entries[j]).url@,
        )
}

/// Calls `serde_json::to_vec` on a `BTreeMap` with one member for each of
/// the entries, which stand in ascending order of their URLs already.
/// Trusted: the call succeeds (the keys are strings, the values are truth
/// values, and the text is written into a `Vec`, so that no step of the
/// serializer can fail), and its result is the JSON text of the map that
/// the entries make up, which depends on that map alone.
#[verifier::external_body]
fn encode_statuses(entries: &Vec<ProbeStatus>) -> (r: Result<Vec<u8>, serde_json::Error>)
    requires
        urls_ascend(entries@),
    ensures
        r is Ok,
        r matches Ok(bytes) ==> bytes@ == encoded_statuses(status_map(entries@)),
{
    let mut map: std::collections::BTreeMap<&str, bool> = std::collections::BTreeMap::new();
    for entry in entries.iter() {
        map.insert(entry.url.as_str(), entry.reachable);
    }
    serde_json::to_vec(&map)
}

/// Calls `to_string` on a `serde_json::Error`, that is its `Display`.
/// Nothing is claimed of the text.
#[verifier::external_body]
fn error_text(error: &serde_json::Error) -> String {
    error.to_string()
}

/// Why the statuses could not be read.
#[derive(Debug, PartialEq, Eq)]
pub enum StatusError {
    /// The statuses kept from earlier runs are no JSON object of truth
    /// values; with the deserializer's error.
    Corrupted(String),
}

impl StatusError {
    /// What was being done when the error occurred.
    pub fn message(&self) -> (r: &'static str)
        ensures
            r@ == "missing_ids.json is corrupted"@,
    {
        "missing_ids.json is corrupted"
    }

    /// The error of the JSON library behind this one.
    pub fn cause(&self) -> (r: &str)
        ensures
            r@ == self->Corrupted_0@,
    {
        match self {
            StatusError::Corrupted(e) => e.as_str(),
        }
    }
}

/// Whether one of `entries` is for `url`.
pub open spec fn has_url(entries: Seq<ProbeStatus>, url: Seq<char>) -> bool {
    exists|j: int| 0 <= j < entries.len() && (#[trigger] entries[j]).url@ == url
}

/// The map of entries whose URLs ascend holds exactly their URLs, each with
/// the status of its entry.
pub proof fn lemma_ascending_statuses(entries: Seq<ProbeStatus>)
    requires
        urls_ascend(entries),
    ensures
        forall|url: Seq<char>| #[trigger]
            status_map(entries).contains_key(url) <==> has_url(entries, url),
        forall|j: int|
            0 <= j < entries.len() ==> status_map(entries).contains_key(
                (#[trigger] entries[j]).url@,
            ) && status_map(entries)[entries[j].url@] == entries[j].reachable,
    decreases entries.len(),
{
    if entries.len() > 0 {
        let rest = entries.drop_last();
        let last = entries.last();
        assert(urls_ascend(rest)) by {
            assert forall|i: int, j: int| 0 <= i < j < rest.len() implies text_less(
                (#[trigger] rest[i]).url@,
                (#[trigger] rest[j]).url@,
            ) by {
                assert(rest[i] == entries[i] && rest[j] == entries[j]);
            }
        }
        lemma_ascending_statuses(rest);
        assert forall|url: Seq<char>| #[trigger]
            status_map(entries).contains_key(url) <==> has_url(entries, url) by {
            assert(status_map(rest).contains_key(url) <==> has_url(rest, url));
            assert(status_map(entries) == status_map(rest).insert(last.url@, last.reachable));
            if has_url(rest, url) {
                let j = choose|j: int| 0 <= j < rest.len() && (#[trigger] rest[j]).url@ == url;
                assert(entries[j] == rest[j]);
                assert(has_url(entries, url));
            }
            if url == last.url@ {
                assert(entries[entries.len() - 1].url@ == url);
                assert(has_url(entries, url));
            }
            if has_url(entries, url) && url != last.url@ {
                let j = choose|j: int|
                    0 <= j < entries.len() && (#[trigger] entries[j]).url@ == url;
                assert(rest[j] == entries[j]);
                assert(rest[j].url@ == url);
                assert(has_url(rest, url));
            }
        }
        assert forall|j: int| 0 <= j < entries.len() implies status_map(entries).contains_key(
            (#[trigger] entries[j]).url@,
        ) && status_map(entries)[entries[j].url@] == entries[j].reachable by {
            if j < rest.len() {
                assert(rest[j] == entries[j]);
                assert(text_less(entries[j].url@, entries[entries.len() - 1].url@));
                lemma_text_less_irreflexive(last.url@);
            }
        }
    }
}

/// Putting an entry where its URL belongs keeps the URLs ascending.
proof fn lemma_insert_keeps_order(entries: Seq<ProbeStatus>, k: int, entry: ProbeStatus)
    requires
        urls_ascend(entries),
        0 <= k <= entries.len(),
        forall|j: int| 0 <= j < k ==> text_less((#[trigger] entries[j]).url@, entry.url@),
        k < entries.len() ==> text_less(entry.url@, entries[k].url@),
    ensures
        urls_ascend(entries.insert(k, entry)),
{
    let now = entries.insert(k, entry);
    assert forall|a: int, b: int| 0 <= a < b < now.len() implies text_less(
        (#[trigger] now[a]).url@,
        (#[trigger] now[b]).url@,
    ) by {
        let x = if a < k {
            a
        } else {
            a - 1
        };
        let y = if b < k {
            b
        } else {
            b - 1
        };
        if a != k {
            assert(now[a] == entries[x]);
        }
        if b != k {
            assert(now[b] == entries[y]);
        }
        if a != k && b != k {
            assert(text_less(entries[x].url@, entries[y].url@));
        } else if a == k {
            if y > k {
                assert(text_less(entries[k].url@, entries[y].url@));
                lemma_text_less_transitive(entry.url@, entries[k].url@, entries[y].url@);
            }
        }
    }
}

/// The entries in ascending order of their URLs, each URL once with the
/// status that counts for it.
pub fn ordered_statuses(entries: &Vec<ProbeStatus>) -> (r: Vec<ProbeStatus>)
    ensures
        urls_ascend(r@),
        status_map(r@) == status_map(entries@),
{
    let mut out: Vec<ProbeStatus> = Vec::new();
    let mut i: usize = 0;
    assert(entries@.subrange(0, 0) =~= Seq::empty());
    while i < entries.len()
        invariant
            i <= entries@.len(),
            urls_ascend(out@),
            status_map(out@) == status_map(entries@.subrange(0, i as int)),
        decreases entries@.len() - i,
    {
        let entry = ProbeStatus { url: entries[i].url.clone(), reachable: entries[i].reachable };
        let ghost url = entry.url@;
        let ghost before = out@;
        let ghost target = status_map(before).insert(url, entry.reachable);
        proof {
            assert(entries@.subrange(0, i + 1).drop_last() =~= entries@.subrange(0, i as int));
            assert(entries@.subrange(0, i + 1).last() == entries@[i as int]);
            lemma_ascending_statuses(before);
        }
        let mut k: usize = 0;
        while k < out.len() && less(out[k].url.as_str(), entry.url.as_str())
            invariant
                k <= out@.len(),
                out@ == before,
                url == entry.url@,
                forall|j: int| 0 <= j < k ==> text_less((#[trigger] before[j]).url@, url),
            decreases out@.len() - k,
        {
            k += 1;
        }
        let same = k < out.len() && equal(out[k].url.as_str(), entry.url.as_str());
        if same {
            out.set(k, entry);
            proof {
                let now = out@;
                assert forall|a: int, b: int| 0 <= a < b < now.len() implies text_less(
                    (#[trigger] now[a]).url@,
                    (#[trigger] now[b]).url@,
                ) by {
                    assert(now[a].url@ == before[a].url@ && now[b].url@ == before[b].url@);
                    assert(text_less(before[a].url@, before[b].url@));
                }
                lemma_ascending_statuses(now);
                assert forall|u: Seq<char>| #[trigger]
                    status_map(now).contains_key(u) == target.contains_key(u) by {
                    if has_url(now, u) {
                        let j = choose|j: int| 0 <= j < now.len() && (#[trigger] now[j]).url@ == u;
                        assert(before[j].url@ == u);
                    }
                    if has_url(before, u) {
                        let j = choose|j: int|
                            0 <= j < before.len() && (#[trigger] before[j]).url@ == u;
                        assert(now[j].url@ == u);
                    }
                    if u == url {
                        assert(now[k as int].url@ == u);
                    }
                }
                assert forall|u: Seq<char>| #[trigger]
                    status_map(now).contains_key(u) implies status_map(now)[u] == target[u] by {
                    let j = choose|j: int| 0 <= j < now.len() && (#[trigger] now[j]).url@ == u;
                    if j != k {
                        assert(now[j] == before[j]);
                    }
                }
                assert(status_map(now) =~= target);
            }
        } else {
            proof {
                if (k as int) < before.len() {
                    lemma_text_less_total(before[k as int].url@, url);
                }
                lemma_insert_keeps_order(before, k as int, entry);
            }
            out.insert(k, entry);
            proof {
                let now = out@;
                let at = k as int;
                lemma_ascending_statuses(now);
                assert forall|u: Seq<char>| #[trigger]
                    status_map(now).contains_key(u) == target.contains_key(u) by {
                    if has_url(now, u) {
                        let j = choose|j: int| 0 <= j < now.len() && (#[trigger] now[j]).url@ == u;
                        if j < at {
                            assert(before[j] == now[j]);
                        } else if j > at {
                            assert(before[j - 1] == now[j]);
                        }
                    }
                    if has_url(before, u) {
                        let j = choose|j: int|
                            0 <= j < before.len() && (#[trigger] before[j]).url@ == u;
                        if j < at {
                            assert(now[j] == before[j]);
                        } else {
                            assert(now[j + 1] == before[j]);
                        }
                    }
                    if u == url {
                        assert(now[at].url@ == u);
                    }
                }
                assert forall|u: Seq<char>| #[trigger]
                    status_map(now).contains_key(u) implies status_map(now)[u] == target[u] by {
                    let j = choose|j: int| 0 <= j < now.len() && (#[trigger] now[j]).url@ == u;
                    if j < at {
                        assert(before[j] == now[j]);
                        lemma_text_less_irreflexive(url);
                    } else if j > at {
                        assert(before[j - 1] == now[j]);
                        assert(text_less(now[at].url@, now[j].url@));
                        lemma_text_less_irreflexive(url);
                    }
                }
                assert(status_map(now) =~= target);
            }
        }
        i += 1;
    }
    assert(entries@.subrange(0, i as int) =~= entries@);
    out
}

/// The statuses that are known at the start: those that were kept from
/// earlier runs, none where nothing was kept, and nothing at all where what
/// was kept cannot be read.
pub open spec fn kept_statuses(kept: Option<Seq<u8>>) -> Option<Map<Seq<char>, bool>> {
    match kept {
        Some(bytes) => decoded_statuses(bytes),
        None => Some(Map::empty()),
    }
}

/// View of optional bytes.
pub open spec fn opt_bytes(o: Option<&[u8]>) -> Option<Seq<u8>> {
    match o {
        Some(b) => Some(b@),
        None => None,
    }
}

/// Whether `url` is known to be reachable. A URL without a status is not.
pub open spec fn reachable(statuses: Map<Seq<char>, bool>, url: Seq<char>) -> bool {
    statuses.contains_key(url) && statuses[url]
}

/// Whether the object of `link` was referenced but seen in no list.
pub open spec fn is_missing(known_ids: Set<Seq<char>>, link: LinkView) -> bool {
    !known_ids.contains(link.target)
}

/// The URLs to probe among the first `n` links: the targets that were seen
/// in no list and have no status yet, each once, in the order of the links.
pub open spec fn probe_targets(
    links: Seq<LinkView>,
    n: nat,
    known_ids: Set<Seq<char>>,
    statuses: Map<Seq<char>, bool>,
) -> Seq<Seq<char>>
    decreases n,
{
    if n == 0 || n > links.len() {
        Seq::empty()
    } else {
        let rest = probe_targets(links, (n - 1) as nat, known_ids, statuses);
        let url = links[n - 1].target;
        if is_missing(known_ids, links[n - 1]) && !statuses.contains_key(url) && !rest.contains(
            url,
        ) {
            rest.push(url)
        } else {
            rest
        }
    }
}

/// The finding for a referenced object that is in no list: it is reported as
/// left out of its list where it can be fetched, and as missing where it
/// cannot. The detail names the object, the first place that refers to it,
/// and how many more references there are.
pub open spec fn finding_for(link: LinkView, reachable: bool) -> ProblemView {
    ProblemView {
        kind: if reachable {
            KindView::ObjectNotInList(link.object_type)
        } else {
            KindView::ObjectMissing(link.object_type)
        },
        path: Seq::empty(),
        detail: link.target + " referenced by "@ + link.sources[0] + " and "@ + decimal(
            (link.sources.len() - 1) as nat,
        ) + " others"@,
    }
}

/// The findings for the first `n` links: one for each link whose object was
/// seen in no list, in the order of the links.
pub open spec fn link_findings(
    links: Seq<LinkView>,
    n: nat,
    known_ids: Set<Seq<char>>,
    statuses: Map<Seq<char>, bool>,
) -> Seq<ProblemView>
    decreases n,
{
    if n == 0 || n > links.len() {
        Seq::empty()
    } else {
        let rest = link_findings(links, (n - 1) as nat, known_ids, statuses);
        if is_missing(known_ids, links[n - 1]) {
            rest.push(finding_for(links[n - 1], reachable(statuses, links[n - 1].target)))
        } else {
            rest
        }
    }
}

/// The findings of the reconciliation of `store` under `statuses`.
pub open spec fn reconcile_findings(store: StorageView, statuses: Map<Seq<char>, bool>) -> Seq<
    ProblemView,
> {
    link_findings(store.links, store.links.len(), store.known_ids, statuses)
}

/// How many of the first `n` links lead to an object that was seen in no list.
pub open spec fn missing_count(links: Seq<LinkView>, n: nat, known_ids: Set<Seq<char>>) -> nat
    decreases n,
{
    if n == 0 || n > links.len() {
        0
    } else {
        missing_count(links, (n - 1) as nat, known_ids) + if is_missing(known_ids, links[n - 1]) {
            1nat
        } else {
            0nat
        }
    }
}

/// Writing each of `findings` to the log, in order.
pub open spec fn finding_ops(findings: Seq<ProblemView>) -> Seq<StoreOp> {
    findings.map_values(|p: ProblemView| StoreOp::Finding(p))
}

/// The observable state of a [`Reconciler`].
pub struct ReconcilerView {
    /// What is known of the reachability of URLs.
    pub statuses: Map<Seq<char>, bool>,
    /// The URLs that are still to be probed; the last one is handed out next.
    pub queue: Seq<Seq<char>>,
    /// The URLs whose probes are under way.
    pub in_flight: Seq<Seq<char>>,
    /// Whether there was anything to probe.
    pub probed: bool,
}

impl ReconcilerView {
    /// The state before the first probe: every target of `store` that was
    /// seen in no list and has no status in `known` waits in the queue.
    pub open spec fn start(store: StorageView, known: Map<Seq<char>, bool>) -> ReconcilerView {
        let queue = probe_targets(store.links, store.links.len(), store.known_ids, known);
        ReconcilerView { statuses: known, queue, in_flight: Seq::empty(), probed: queue.len() > 0 }
    }

    /// Whether a further probe may be started now.
    pub open spec fn can_issue(self) -> bool {
        self.queue.len() > 0 && self.in_flight.len() < MAX_CONCURRENT_PROBES
    }

    /// The state after the next probe was handed out.
    pub open spec fn after_issue(self) -> ReconcilerView {
        if self.can_issue() {
            ReconcilerView {
                queue: self.queue.drop_last(),
                in_flight: self.in_flight.push(self.queue.last()),
                ..self
            }
        } else {
            self
        }
    }

    /// The state after the probe of `url` reported `reachable`: the status is
    /// kept and the URL leaves the probes under way (its first entry there).
    /// A result for a URL whose probe is not under way changes nothing.
    pub open spec fn after_result(self, url: Seq<char>, reachable: bool) -> ReconcilerView {
        if self.in_flight.contains(url) {
            ReconcilerView {
                statuses: self.statuses.insert(url, reachable),
                in_flight: self.in_flight.remove(self.in_flight.index_of_first(url).unwrap()),
                ..self
            }
        } else {
            self
        }
    }

    /// Never more probes are under way than are allowed.
    pub open spec fn wf(self) -> bool {
        self.in_flight.len() <= MAX_CONCURRENT_PROBES
    }

    /// Whether every probe has been handed out and has reported.
    pub open spec fn done(self) -> bool {
        self.queue.len() == 0 && self.in_flight.len() == 0
    }
}

/// Whether some of the first `n` links leads to `url`.
pub open spec fn is_target(links: Seq<LinkView>, n: nat, url: Seq<char>) -> bool {
    exists|i: int| 0 <= i < n && i < links.len() && (#[trigger] links[i]).target == url
}

/// A URL is probed exactly if it is referenced, was seen in no list and has
/// no status yet; and no URL is probed twice. In particular no probe is made
/// for an object that was seen in a list.
pub proof fn lemma_probe_targets(
    links: Seq<LinkView>,
    n: nat,
    known_ids: Set<Seq<char>>,
    statuses: Map<Seq<char>, bool>,
)
    requires
        n <= links.len(),
    ensures
        forall|url: Seq<char>| #[trigger]
            probe_targets(links, n, known_ids, statuses).contains(url) <==> (is_target(
                links,
                n,
                url,
            ) && !known_ids.contains(url) && !statuses.contains_key(url)),
        probe_targets(links, n, known_ids, statuses).no_duplicates(),
    decreases n,
{
    let now = probe_targets(links, n, known_ids, statuses);
    if n > 0 {
        let m = (n - 1) as nat;
        let rest = probe_targets(links, m, known_ids, statuses);
        lemma_probe_targets(links, m, known_ids, statuses);
        let last = links[n - 1].target;
        assert forall|url: Seq<char>| #[trigger] now.contains(url) <==> (is_target(links, n, url)
            && !known_ids.contains(url) && !statuses.contains_key(url)) by {
            if now.contains(url) {
                let k = choose|k: int| 0 <= k < now.len() && now[k] == url;
                if k < rest.len() {
                    assert(rest[k] == url);
                    assert(rest.contains(url));
                    let i = choose|i: int|
                        0 <= i < m && i < links.len() && (#[trigger] links[i]).target == url;
                    assert(links[i].target == url);
                } else {
                    assert(url == last);
                    assert(links[n - 1].target == url);
                }
            }
            if is_target(links, n, url) && !known_ids.contains(url) && !statuses.contains_key(url) {
                let i = choose|i: int|
                    0 <= i < n && i < links.len() && (#[trigger] links[i]).target == url;
                if i < m {
                    assert(is_target(links, m, url));
                    assert(rest.contains(url));
                    let k = choose|k: int| 0 <= k < rest.len() && rest[k] == url;
                    assert(now[k] == url);
                } else {
                    if rest.contains(url) {
                        let k = choose|k: int| 0 <= k < rest.len() && rest[k] == url;
                        assert(now[k] == url);
                    } else {
                        assert(now[now.len() - 1] == url);
                    }
                }
            }
        }
    } else {
        assert forall|url: Seq<char>| !(#[trigger] now.contains(url)) by {}
    }
}

/// Each referenced object that was seen in no list has exactly one finding,
/// and the others have none: there are as many findings as such objects,
/// and the finding of each stands where the object stands among them. The
/// finding says that the object is left out of its list where the object is
/// known to be reachable, and that it is missing otherwise.
pub proof fn lemma_one_finding_per_missing_link(
    links: Seq<LinkView>,
    n: nat,
    known_ids: Set<Seq<char>>,
    statuses: Map<Seq<char>, bool>,
)
    requires
        n <= links.len(),
    ensures
        link_findings(links, n, known_ids, statuses).len() == missing_count(links, n, known_ids),
        forall|i: int|
            0 <= i < n && is_missing(known_ids, #[trigger] links[i]) ==> missing_count(
                links,
                i as nat,
                known_ids,
            ) < missing_count(links, n, known_ids) && link_findings(
                links,
                n,
                known_ids,
                statuses,
            )[missing_count(links, i as nat, known_ids) as int] == finding_for(
                links[i],
                reachable(statuses, links[i].target),
            ),
    decreases n,
{
    if n > 0 {
        let m = (n - 1) as nat;
        lemma_one_finding_per_missing_link(links, m, known_ids, statuses);
        lemma_missing_count_grows(links, m, n, known_ids);
        assert forall|i: int| 0 <= i < n && is_missing(known_ids, #[trigger] links[i]) implies
            missing_count(links, i as nat, known_ids) < missing_count(links, n, known_ids)
            && link_findings(links, n, known_ids, statuses)[missing_count(
            links,
            i as nat,
            known_ids,
        ) as int] == finding_for(links[i], reachable(statuses, links[i].target)) by {
            if i < m {
                lemma_missing_count_grows(links, i as nat, m, known_ids);
            }
        }
    }
}

/// The count of missing objects does not shrink as more links are counted.
pub proof fn lemma_missing_count_grows(
    links: Seq<LinkView>,
    a: nat,
    b: nat,
    known_ids: Set<Seq<char>>,
)
    requires
        a <= b <= links.len(),
    ensures
        missing_count(links, a, known_ids) <= missing_count(links, b, known_ids),
    decreases b,
{
    if a < b {
        lemma_missing_count_grows(links, a, (b - 1) as nat, known_ids);
    }
}

impl ReconcilerView {
    /// Whether `url` is not lost: it waits, is being probed, or has a status.
    pub open spec fn accounts_for(self, url: Seq<char>) -> bool {
        self.queue.contains(url) || self.in_flight.contains(url) || self.statuses.contains_key(url)
    }
}

/// At the start every referenced object that was seen in no list is accounted for.
pub proof fn lemma_start_accounts_for_missing(
    store: StorageView,
    known: Map<Seq<char>, bool>,
    i: int,
)
    requires
        0 <= i < store.links.len(),
        is_missing(store.known_ids, store.links[i]),
    ensures
        ReconcilerView::start(store, known).accounts_for(store.links[i].target),
        ReconcilerView::start(store, known).wf(),
{
    lemma_probe_targets(store.links, store.links.len(), store.known_ids, known);
    assert(is_target(store.links, store.links.len(), store.links[i].target));
}

/// Handing out a probe and taking a result lose no URL and keep the number
/// of probes under way within the limit; and once all probes are done, every
/// URL that was accounted for has a status.
pub proof fn lemma_probing_keeps_account(
    r: ReconcilerView,
    url: Seq<char>,
    result: Seq<char>,
    reachable: bool,
)
    requires
        r.wf(),
        r.accounts_for(url),
    ensures
        r.after_issue().wf(),
        r.after_issue().accounts_for(url),
        r.after_result(result, reachable).wf(),
        r.after_result(result, reachable).accounts_for(url),
        r.done() ==> r.statuses.contains_key(url),
{
    if r.can_issue() {
        let next = r.after_issue();
        if r.queue.contains(url) {
            let k = choose|k: int| 0 <= k < r.queue.len() && r.queue[k] == url;
            if k < r.queue.len() - 1 {
                assert(next.queue[k] == url);
            } else {
                assert(next.in_flight[next.in_flight.len() - 1] == url);
            }
        }
        if r.in_flight.contains(url) {
            let k = choose|k: int| 0 <= k < r.in_flight.len() && r.in_flight[k] == url;
            assert(next.in_flight[k] == url);
        }
    }
    if r.in_flight.contains(result) {
        let next = r.after_result(result, reachable);
        r.in_flight.index_of_first_ensures(result);
        let at = r.in_flight.index_of_first(result).unwrap();
        if r.in_flight.contains(url) && url != result {
            let k = choose|k: int| 0 <= k < r.in_flight.len() && r.in_flight[k] == url;
            if k < at {
                assert(next.in_flight[k] == url);
            } else {
                assert(next.in_flight[k - 1] == url);
            }
        }
    }
    if r.done() {
        if r.queue.contains(url) {
            let k = choose|k: int| 0 <= k < r.queue.len() && r.queue[k] == url;
        }
        if r.in_flight.contains(url) {
            let k = choose|k: int| 0 <= k < r.in_flight.len() && r.in_flight[k] == url;
        }
    }
}

impl ReconcilerView {
    /// Whether this state can have come about from the start with the
    /// statuses `known` and the URLs `targets` to probe: the known statuses
    /// are kept as they were, no other URL than a target has gained a status,
    /// every target still waits, is being probed or has its status, and no
    /// URL that waits or is being probed has a status or stands twice.
    pub open spec fn extends(self, known: Map<Seq<char>, bool>, targets: Seq<Seq<char>>) -> bool {
        &&& forall|url: Seq<char>| #[trigger]
            known.contains_key(url) ==> self.statuses.contains_key(url) && self.statuses[url]
                == known[url]
        &&& forall|url: Seq<char>| #[trigger]
            self.statuses.contains_key(url) ==> known.contains_key(url) || targets.contains(url)
        &&& forall|i: int|
            0 <= i < self.queue.len() ==> targets.contains(#[trigger] self.queue[i])
                && !self.statuses.contains_key(self.queue[i])
        &&& forall|i: int|
            0 <= i < self.in_flight.len() ==> targets.contains(#[trigger] self.in_flight[i])
                && !self.statuses.contains_key(self.in_flight[i])
        &&& forall|i: int|
            0 <= i < targets.len() ==> self.accounts_for(#[trigger] targets[i])
        &&& self.queue.no_duplicates()
        &&& self.in_flight.no_duplicates()
        &&& forall|i: int, j: int|
            0 <= i < self.queue.len() && 0 <= j < self.in_flight.len() ==> #[trigger] self.queue[i]
                != #[trigger] self.in_flight[j]
    }
}

/// The start extends the known statuses by nothing yet, with every URL to
/// probe waiting.
pub proof fn lemma_start_extends(store: StorageView, known: Map<Seq<char>, bool>)
    ensures
        ReconcilerView::start(store, known).extends(
            known,
            probe_targets(store.links, store.links.len(), store.known_ids, known),
        ),
{
    let targets = probe_targets(store.links, store.links.len(), store.known_ids, known);
    let r = ReconcilerView::start(store, known);
    lemma_probe_targets(store.links, store.links.len(), store.known_ids, known);
    assert forall|i: int| 0 <= i < r.queue.len() implies targets.contains(#[trigger] r.queue[i])
        && !r.statuses.contains_key(r.queue[i]) by {
        assert(targets.contains(targets[i]));
    }
    assert forall|i: int| 0 <= i < targets.len() implies r.accounts_for(#[trigger] targets[i]) by {
        assert(r.queue.contains(targets[i]));
    }
}

/// Handing out a probe keeps the state an extension of the known statuses
/// and changes no status.
pub proof fn lemma_issue_extends(
    r: ReconcilerView,
    known: Map<Seq<char>, bool>,
    targets: Seq<Seq<char>>,
)
    requires
        r.extends(known, targets),
    ensures
        r.after_issue().extends(known, targets),
        r.after_issue().statuses == r.statuses,
{
    if r.can_issue() {
        let next = r.after_issue();
        let last = r.queue.last();
        assert(r.queue[r.queue.len() - 1] == last);
        assert forall|i: int| 0 <= i < next.queue.len() implies targets.contains(
            #[trigger] next.queue[i],
        ) && !next.statuses.contains_key(next.queue[i]) by {
            assert(next.queue[i] == r.queue[i]);
        }
        assert forall|i: int| 0 <= i < next.in_flight.len() implies targets.contains(
            #[trigger] next.in_flight[i],
        ) && !next.statuses.contains_key(next.in_flight[i]) by {
            if i < r.in_flight.len() {
                assert(next.in_flight[i] == r.in_flight[i]);
            }
        }
        assert forall|i: int| 0 <= i < targets.len() implies next.accounts_for(
            #[trigger] targets[i],
        ) by {
            let url = targets[i];
            assert(r.accounts_for(url));
            if r.queue.contains(url) {
                let k = choose|k: int| 0 <= k < r.queue.len() && r.queue[k] == url;
                if k < r.queue.len() - 1 {
                    assert(next.queue[k] == url);
                } else {
                    assert(next.in_flight[next.in_flight.len() - 1] == url);
                }
            }
            if r.in_flight.contains(url) {
                let k = choose|k: int| 0 <= k < r.in_flight.len() && r.in_flight[k] == url;
                assert(next.in_flight[k] == url);
            }
        }
        assert(next.queue.no_duplicates()) by {
            assert forall|i: int, j: int|
                0 <= i < next.queue.len() && 0 <= j < next.queue.len() && i != j implies next.queue[i]
                != next.queue[j] by {
                assert(next.queue[i] == r.queue[i] && next.queue[j] == r.queue[j]);
            }
        }
        assert(next.in_flight.no_duplicates()) by {
            assert forall|i: int, j: int|
                0 <= i < next.in_flight.len() && 0 <= j < next.in_flight.len() && i
                    != j implies next.in_flight[i] != next.in_flight[j] by {
                if i < r.in_flight.len() {
                    assert(next.in_flight[i] == r.in_flight[i]);
                }
                if j < r.in_flight.len() {
                    assert(next.in_flight[j] == r.in_flight[j]);
                }
            }
        }
        assert forall|i: int, j: int|
            0 <= i < next.queue.len() && 0 <= j < next.in_flight.len() implies #[trigger] next.queue[i]
            != #[trigger] next.in_flight[j] by {
            assert(next.queue[i] == r.queue[i]);
            if j < r.in_flight.len() {
                assert(next.in_flight[j] == r.in_flight[j]);
            }
        }
    }
}

/// Taking a result keeps the state an extension of the known statuses. The
/// result of a probe that is under way becomes the status of its URL, and
/// every status that was there before stays as it was: a status, once
/// given, is final.
pub proof fn lemma_result_extends(
    r: ReconcilerView,
    known: Map<Seq<char>, bool>,
    targets: Seq<Seq<char>>,
    url: Seq<char>,
    reachable: bool,
)
    requires
        r.extends(known, targets),
    ensures
        r.after_result(url, reachable).extends(known, targets),
        r.in_flight.contains(url) ==> r.after_result(url, reachable).statuses.contains_key(url)
            && r.after_result(url, reachable).statuses[url] == reachable,
        forall|other: Seq<char>| #[trigger]
            r.statuses.contains_key(other) ==> r.after_result(
                url,
                reachable,
            ).statuses.contains_key(other) && r.after_result(url, reachable).statuses[other]
                == r.statuses[other],
{
    if r.in_flight.contains(url) {
        let next = r.after_result(url, reachable);
        r.in_flight.index_of_first_ensures(url);
        let at = r.in_flight.index_of_first(url).unwrap();
        assert(r.in_flight[at] == url);
        assert(!r.statuses.contains_key(url));
        assert forall|i: int| 0 <= i < next.in_flight.len() implies targets.contains(
            #[trigger] next.in_flight[i],
        ) && !next.statuses.contains_key(next.in_flight[i]) by {
            if i < at {
                assert(next.in_flight[i] == r.in_flight[i]);
            } else {
                assert(next.in_flight[i] == r.in_flight[i + 1]);
            }
        }
        assert forall|i: int| 0 <= i < next.queue.len() implies targets.contains(
            #[trigger] next.queue[i],
        ) && !next.statuses.contains_key(next.queue[i]) by {
            assert(r.queue[i] != r.in_flight[at]);
        }
        assert forall|i: int| 0 <= i < targets.len() implies next.accounts_for(
            #[trigger] targets[i],
        ) by {
            let t = targets[i];
            assert(r.accounts_for(t));
            if r.in_flight.contains(t) && t != url {
                let k = choose|k: int| 0 <= k < r.in_flight.len() && r.in_flight[k] == t;
                if k < at {
                    assert(next.in_flight[k] == t);
                } else {
                    assert(next.in_flight[k - 1] == t);
                }
            }
        }
        assert(next.in_flight.no_duplicates()) by {
            assert forall|i: int, j: int|
                0 <= i < next.in_flight.len() && 0 <= j < next.in_flight.len() && i
                    != j implies next.in_flight[i] != next.in_flight[j] by {
                let a = if i < at {
                    i
                } else {
                    i + 1
                };
                let b = if j < at {
                    j
                } else {
                    j + 1
                };
                assert(next.in_flight[i] == r.in_flight[a]);
                assert(next.in_flight[j] == r.in_flight[b]);
            }
        }
        assert forall|i: int, j: int|
            0 <= i < next.queue.len() && 0 <= j < next.in_flight.len() implies #[trigger] next.queue[i]
            != #[trigger] next.in_flight[j] by {
            let b = if j < at {
                j
            } else {
                j + 1
            };
            assert(next.in_flight[j] == r.in_flight[b]);
        }
        assert forall|u: Seq<char>| #[trigger] next.statuses.contains_key(u) implies known.contains_key(
            u,
        ) || targets.contains(u) by {
            if u != url {
                assert(r.statuses.contains_key(u));
            }
        }
    }
}

/// Once every probe is done, the statuses are the known ones extended by the
/// results: a URL has a status exactly if it had one before or was to be
/// probed, and every status from before is kept with its value.
pub proof fn lemma_done_statuses(
    r: ReconcilerView,
    known: Map<Seq<char>, bool>,
    targets: Seq<Seq<char>>,
)
    requires
        r.extends(known, targets),
        r.done(),
    ensures
        forall|url: Seq<char>| #[trigger]
            r.statuses.contains_key(url) <==> known.contains_key(url) || targets.contains(url),
        forall|url: Seq<char>| #[trigger]
            known.contains_key(url) ==> r.statuses[url] == known[url],
{
    assert forall|url: Seq<char>| targets.contains(url) implies r.statuses.contains_key(url) by {
        let i = choose|i: int| 0 <= i < targets.len() && targets[i] == url;
        assert(r.accounts_for(targets[i]));
        if r.queue.contains(url) {
            let k = choose|k: int| 0 <= k < r.queue.len() && r.queue[k] == url;
        }
        if r.in_flight.contains(url) {
            let k = choose|k: int| 0 <= k < r.in_flight.len() && r.in_flight[k] == url;
        }
    }
}

/// Drives the probes of one reconciliation and keeps their results.
pub struct Reconciler {
    statuses: Vec<ProbeStatus>,
    queue: Vec<String>,
    in_flight: Vec<String>,
    probed: bool,
}

impl View for Reconciler {
    type V = ReconcilerView;

    closed spec fn view(&self) -> ReconcilerView {
        ReconcilerView {
            statuses: status_map(self.statuses@),
            queue: texts_view(self.queue@),
            in_flight: texts_view(self.in_flight@),
            probed: self.probed,
        }
    }
}

/// The status that `entries` hold for `url`.
pub fn lookup(entries: &Vec<ProbeStatus>, url: &str) -> (r: Option<bool>)
    ensures
        match r {
            Some(b) => status_map(entries@).contains_key(url@) && status_map(entries@)[url@] == b,
            None => !status_map(entries@).contains_key(url@),
        },
{
    let mut found: Option<bool> = None;
    let mut i: usize = 0;
    while i < entries.len()
        invariant
            i <= entries@.len(),
            match found {
                Some(b) => status_map(entries@.subrange(0, i as int)).contains_key(url@)
                    && status_map(entries@.subrange(0, i as int))[url@] == b,
                None => !status_map(entries@.subrange(0, i as int)).contains_key(url@),
            },
        decreases entries@.len() - i,
    {
        assert(entries@.subrange(0, i + 1).drop_last() =~= entries@.subrange(0, i as int));
        if equal(entries[i].url.as_str(), url) {
            found = Some(entries[i].reachable);
        }
        i += 1;
    }
    assert(entries@.subrange(0, i as int) =~= entries@);
    found
}

/// Whether `url` is among `urls`.
pub fn contains_text(urls: &Vec<String>, url: &str) -> (r: bool)
    ensures
        r == texts_view(urls@).contains(url@),
{
    let mut i: usize = 0;
    while i < urls.len()
        invariant
            i <= urls@.len(),
            forall|j: int| 0 <= j < i ==> texts_view(urls@)[j] != url@,
        decreases urls@.len() - i,
    {
        if equal(urls[i].as_str(), url) {
            assert(texts_view(urls@)[i as int] == url@);
            return true;
        }
        i += 1;
    }
    false
}

/// The finding for `link`, whose object was seen in no list.
pub fn link_problem(link: &Link, reachable: bool) -> (r: Problem)
    ensures
        r@ == finding_for(link@, reachable),
{
    let others = decimal_text(link.other_sources.len());
    let mut detail = concat4(
        link.target.as_str(),
        " referenced by ",
        link.first_source.as_str(),
        " and ",
    );
    detail.append(others.as_str());
    detail.append(" others");
    Problem {
        kind: if reachable {
            ProblemKind::ObjectNotInList(link.object_type)
        } else {
            ProblemKind::ObjectMissing(link.object_type)
        },
        path: String::new(),
        detail,
    }
}

impl Reconciler {
    /// Begins the reconciliation of `store` with the statuses that were kept
    /// from earlier runs, as the JSON text `kept`, or with none where nothing
    /// was kept. What was kept and cannot be read breaks off the reconciliation.
    pub fn load(store: &Storage, kept: Option<&[u8]>) -> (r: Result<Reconciler, StatusError>)
        ensures
            match r {
                Ok(reconciler) => kept_statuses(opt_bytes(kept)) == Some(reconciler@.statuses)
                    && reconciler@ == ReconcilerView::start(store@, reconciler@.statuses)
                    && reconciler@.wf(),
                Err(e) => kept_statuses(opt_bytes(kept)) is None && e is Corrupted,
            },
    {
        match kept {
            None => {
                let known: Vec<ProbeStatus> = Vec::new();
                assert(status_map(known@) =~= Map::<Seq<char>, bool>::empty());
                Ok(Reconciler::start(store, known))
            },
            Some(bytes) => match decode_statuses(bytes) {
                Ok(known) => Ok(Reconciler::start(store, known)),
                Err(e) => Err(StatusError::Corrupted(error_text(&e))),
            },
        }
    }

    /// The statuses as the JSON text to keep for later runs: every URL with
    /// its status, those from earlier runs and those that the probes gave.
    /// Nothing where no probe was made, so that what was kept before holds.
    pub fn to_keep(&self) -> (r: Option<Vec<u8>>)
        ensures
            match r {
                Some(bytes) => self@.probed && bytes@ == encoded_statuses(self@.statuses),
                None => !self@.probed,
            },
    {
        if !self.probed {
            return None;
        }
        let ordered = ordered_statuses(&self.statuses);
        match encode_statuses(&ordered) {
            Ok(bytes) => Some(bytes),
            Err(_) => None,
        }
    }

    /// Begins the reconciliation of `store`. `known` holds the statuses that
    /// earlier runs established; they are trusted, so only the targets that
    /// were seen in no list and have no status there are queued for a probe.
    pub fn start(store: &Storage, known: Vec<ProbeStatus>) -> (r: Reconciler)
        ensures
            r@ == ReconcilerView::start(store@, status_map(known@)),
            r@.wf(),
    {
        let links = store.links();
        let mut queue: Vec<String> = Vec::new();
        let mut i: usize = 0;
        let ghost views = links_view(links@);
        let ghost statuses = status_map(known@);
        assert(texts_view(queue@) =~= Seq::empty());
        while i < links.len()
            invariant
                i <= links@.len(),
                views == links_view(links@),
                views == store@.links,
                statuses == status_map(known@),
                texts_view(queue@) == probe_targets(views, i as nat, store@.known_ids, statuses),
            decreases links@.len() - i,
        {
            let target = links[i].target.as_str();
            assert(views[i as int].target == target@);
            if !store.has_id(target) && lookup(&known, target).is_none() && !contains_text(
                &queue,
                target,
            ) {
                let ghost before = queue@;
                let owned = String::from_str(target);
                queue.push(owned);
                assert(texts_view(queue@) =~= texts_view(before).push(target@));
            }
            i += 1;
        }
        let probed = queue.len() > 0;
        let in_flight: Vec<String> = Vec::new();
        assert(texts_view(in_flight@) =~= Seq::empty());
        Reconciler { statuses: known, queue, in_flight, probed }
    }

    /// Whether there is nothing to reconcile: no URL to probe and no status
    /// from an earlier run.
    pub fn nothing_to_do(&self) -> (r: bool)
        ensures
            r == (self@.done() && self@.statuses == Map::<Seq<char>, bool>::empty()),
    {
        proof {
            if self.statuses@.len() > 0 {
                assert(status_map(self.statuses@).contains_key(self.statuses@.last().url@));
            } else {
                assert(status_map(self.statuses@) =~= Map::<Seq<char>, bool>::empty());
            }
        }
        self.queue.len() == 0 && self.in_flight.len() == 0 && self.statuses.len() == 0
    }

    /// Hands out the next URL to probe, where one waits and fewer probes are
    /// under way than are allowed.
    pub fn next_probe(&mut self) -> (r: Option<String>)
        ensures
            final(self)@ == old(self)@.after_issue(),
            match r {
                Some(url) => old(self)@.can_issue() && url@ == old(self)@.queue.last(),
                None => !old(self)@.can_issue(),
            },
            old(self)@.wf() ==> final(self)@.wf(),
    {
        if self.queue.len() == 0 || self.in_flight.len() >= MAX_CONCURRENT_PROBES {
            return None;
        }
        let ghost queue_before = self.queue@;
        let ghost flight_before = self.in_flight@;
        let url = self.queue.pop().unwrap();
        self.in_flight.push(url.clone());
        assert(texts_view(self.queue@) =~= texts_view(queue_before).drop_last());
        assert(texts_view(self.in_flight@) =~= texts_view(flight_before).push(url@));
        Some(url)
    }

    /// Takes the result of the probe of `url`. Returns whether such a probe
    /// was under way; a result for any other URL is ignored.
    pub fn record(&mut self, url: &str, reachable: bool) -> (r: bool)
        ensures
            final(self)@ == old(self)@.after_result(url@, reachable),
            r == old(self)@.in_flight.contains(url@),
            old(self)@.wf() ==> final(self)@.wf(),
    {
        let mut i: usize = 0;
        let mut found = false;
        let ghost flights = texts_view(self.in_flight@);
        while i < self.in_flight.len() && !found
            invariant
                *self == *old(self),
                flights == texts_view(self.in_flight@),
                i <= self.in_flight@.len(),
                forall|j: int| 0 <= j < i ==> flights[j] != url@,
                found ==> i < self.in_flight@.len() && flights[i as int] == url@,
            decreases self.in_flight@.len() - i + (if found { 0int } else { 1int }),
        {
            if equal(self.in_flight[i].as_str(), url) {
                found = true;
            } else {
                i += 1;
            }
        }
        if !found {
            return false;
        }
        proof {
            assert(flights.contains(url@));
            flights.index_of_first_ensures(url@);
            assert(flights.index_of_first(url@) == Some(i as int));
        }
        let ghost statuses_before = self.statuses@;
        let ghost flight_before = self.in_flight@;
        self.in_flight.remove(i);
        let entry = ProbeStatus { url: String::from_str(url), reachable };
        self.statuses.push(entry);
        assert(texts_view(self.in_flight@) =~= texts_view(flight_before).remove(i as int));
        assert(self.statuses@.drop_last() =~= statuses_before);
        true
    }

    /// Whether every probe has been handed out and has reported.
    pub fn is_done(&self) -> (r: bool)
        ensures
            r == self@.done(),
    {
        self.queue.len() == 0 && self.in_flight.len() == 0
    }

    /// Whether there was anything to probe, so that the statuses have changed
    /// and are worth keeping for later runs.
    pub fn probed(&self) -> (r: bool)
        ensures
            r == self@.probed,
    {
        self.probed
    }

    /// How many probes are under way.
    pub fn in_flight(&self) -> (r: usize)
        ensures
            r == self@.in_flight.len(),
    {
        self.in_flight.len()
    }

    /// How many URLs still wait for their probe.
    pub fn waiting(&self) -> (r: usize)
        ensures
            r == self@.queue.len(),
    {
        self.queue.len()
    }

    /// The statuses: those from earlier runs, followed by the results of
    /// this one in the order in which they arrived.
    pub fn known_statuses(&self) -> (r: &Vec<ProbeStatus>)
        ensures
            status_map(r@) == self@.statuses,
    {
        &self.statuses
    }

    /// Whether `url` is known to be reachable.
    pub fn is_reachable(&self, url: &str) -> (r: bool)
        ensures
            r == reachable(self@.statuses, url@),
    {
        match lookup(&self.statuses, url) {
            Some(b) => b,
            None => false,
        }
    }

    /// The findings of the reconciliation: one for each referenced object
    /// that was seen in no list, in the order of first reference.
    pub fn classify(&self, store: &Storage) -> (r: Vec<Problem>)
        ensures
            problems_view(r@) == reconcile_findings(store@, self@.statuses),
    {
        let links = store.links();
        let mut findings: Vec<Problem> = Vec::new();
        let mut i: usize = 0;
        let ghost views = links_view(links@);
        assert(problems_view(findings@) =~= Seq::empty());
        while i < links.len()
            invariant
                i <= links@.len(),
                views == links_view(links@),
                views == store@.links,
                problems_view(findings@) == link_findings(
                    views,
                    i as nat,
                    store@.known_ids,
                    self@.statuses,
                ),
            decreases links@.len() - i,
        {
            let link = &links[i];
            assert(views[i as int] == link@);
            if !store.has_id(link.target.as_str()) {
                let problem = link_problem(link, self.is_reachable(link.target.as_str()));
                let ghost before = findings@;
                findings.push(problem);
                assert(problems_view(findings@) =~= problems_view(before).push(problem@));
            }
            i += 1;
        }
        findings
    }

    /// How many referenced objects were seen in no list.
    pub fn count_missing(store: &Storage) -> (r: usize)
        ensures
            r == missing_count(store@.links, store@.links.len(), store@.known_ids),
    {
        let links = store.links();
        let mut count: usize = 0;
        let mut i: usize = 0;
        let ghost views = links_view(links@);
        while i < links.len()
            invariant
                i <= links@.len(),
                count <= i,
                views == links_view(links@),
                views == store@.links,
                count == missing_count(views, i as nat, store@.known_ids),
            decreases links@.len() - i,
        {
            assert(views[i as int].target == links@[i as int].target@);
            if !store.has_id(links[i].target.as_str()) {
                count += 1;
            }
            i += 1;
        }
        count
    }

    /// Writes the findings of the reconciliation to the log of `store`: for
    /// each referenced object that was seen in no list one finding, which
    /// says that the object is left out of its list where it is known to be
    /// reachable, and that it is missing otherwise.
    pub fn report(&self, store: &mut Storage)
        ensures
            final(store)@ == old(store)@.apply_all(
                finding_ops(reconcile_findings(old(store)@, self@.statuses)),
            ),
            old(store)@.wf() ==> final(store)@.wf(),
            final(store)@.problems == old(store)@.problems + reconcile_findings(
                old(store)@,
                self@.statuses,
            ),
            final(store)@.links == old(store)@.links,
            final(store)@.known_ids == old(store)@.known_ids,
            final(store)@.known_other_urls == old(store)@.known_other_urls,
    {
        let findings = self.classify(store);
        let ghost all = problems_view(findings@);
        let ghost start = store@;
        let mut i: usize = 0;
        proof {
            lemma_apply_nothing(start);
            assert(finding_ops(all.subrange(0, 0)) =~= Seq::empty());
            assert(start.problems + all.subrange(0, 0) =~= start.problems);
        }
        while i < findings.len()
            invariant
                i <= findings@.len(),
                all == problems_view(findings@),
                store@ == start.apply_all(finding_ops(all.subrange(0, i as int))),
                store@.problems == start.problems + all.subrange(0, i as int),
                store@.links == start.links,
                store@.known_ids == start.known_ids,
                store@.known_other_urls == start.known_other_urls,
                start.wf() ==> store@.wf(),
            decreases findings@.len() - i,
        {
            let ghost before = store@;
            store.add_problem(findings[i].clone());
            proof {
                let ops = finding_ops(all.subrange(0, i + 1));
                assert(ops.drop_last() =~= finding_ops(all.subrange(0, i as int)));
                assert(ops.last() == StoreOp::Finding(all[i as int]));
                assert(store@.problems =~= start.problems + all.subrange(0, i + 1));
            }
            i += 1;
        }
        assert(all.subrange(0, i as int) =~= all);
    }
}

} // verus!
