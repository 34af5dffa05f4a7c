//! Paging through one list: what to fetch next, when to retry, when to give
//! up, and what each page adds to the store.
//!
//! The crawl is a state machine. The caller performs the action that the
//! crawl asks for (a fetch, or a wait followed by a fetch) and reports what
//! came of it; the crawl then says what to do next.

use crate::external_list::ExternalList;
use crate::json::{next_link, raw_next};
use crate::storage::{
    lemma_apply_all_concat, lemma_apply_all_keeps_wf, lemma_apply_nothing, lemma_apply_one,
    Storage, StorageView, StoreOp,
};
use crate::text::{concat4, decimal, decimal_text};
use crate::visit::{
    object_ops, opt_string, KindView, OparlObject, Problem, ProblemKind, ProblemView,
};
use vstd::prelude::*;

verus! {

/// How often one page is fetched before its list is given up.
pub const MAX_ATTEMPTS: u8 = 3;

/// How long to wait before a page is fetched again.
pub const RETRY_DELAY_SECONDS: u64 = 5;

/// What the caller is to do next.
#[derive(Debug, PartialEq, Eq)]
pub enum CrawlAction {
    /// Fetch the page at this URL.
    Fetch(String),
    /// Wait, then fetch the page at this URL again.
    RetryAfter { url: String, seconds: u64 },
    /// Nothing: the list is exhausted or was given up.
    Finished,
}

/// Mathematical value of a [`CrawlAction`].
pub enum ActionView {
    Fetch(Seq<char>),
    RetryAfter { url: Seq<char>, seconds: nat },
    Finished,
}

impl View for CrawlAction {
    type V = ActionView;

    open spec fn view(&self) -> ActionView {
        match *self {
            CrawlAction::Fetch(url) => ActionView::Fetch(url@),
            CrawlAction::RetryAfter { url, seconds } => ActionView::RetryAfter {
                url: url@,
                seconds: seconds as nat,
            },
            CrawlAction::Finished => ActionView::Finished,
        }
    }
}

/// A counter that stops at the largest `usize`.
pub open spec fn capped(n: nat) -> nat {
    if n > usize::MAX {
        usize::MAX as nat
    } else {
        n
    }
}

/// The finding for a failed fetch that will be tried again.
pub open spec fn retry_problem(url: Seq<char>, error: Seq<char>) -> ProblemView {
    ProblemView {
        kind: KindView::HttpRequestFailedRetrying,
        path: Seq::empty(),
        detail: "Abfrage von "@ + url + " ist fehlgeschlagen, wird erneut versucht: "@ + error,
    }
}

/// The finding for a page that failed on every attempt.
pub open spec fn given_up_problem(url: Seq<char>, error: Seq<char>) -> ProblemView {
    ProblemView {
        kind: KindView::HttpRequestFailedTooOften,
        path: Seq::empty(),
        detail: "Die Abfrage "@ + url
            + " ist zu oft fehlgeschlagen, eine Validierung der Liste ist nicht möglich: "@ + error,
    }
}

/// The finding for a page that is JSON but not a list of the expected shape.
pub open spec fn invalid_page_problem(url: Seq<char>, error: Seq<char>) -> ProblemView {
    ProblemView {
        kind: KindView::InvalidJson,
        path: Seq::empty(),
        detail: "Die Liste unter "@ + url + " passt nicht zum Schema von externen Listen: "@ + error,
    }
}

/// What visiting the first `n` objects of a page at `url` writes.
pub open spec fn objects_ops(data: Seq<OparlObject>, n: nat, url: Seq<char>) -> Seq<StoreOp>
    decreases n,
{
    if n == 0 || n > data.len() {
        Seq::empty()
    } else {
        objects_ops(data, (n - 1) as nat, url) + object_ops(data[n - 1], url)
    }
}

/// The observable state of a [`ListCrawl`].
pub struct CrawlView {
    /// The type of the objects in the list.
    pub object_type: Seq<char>,
    /// The page to fetch, or nothing once the crawl has ended.
    pub next_url: Option<Seq<char>>,
    /// How often the fetch of the current page has failed.
    pub failures: nat,
    /// How many objects were visited.
    pub object_count: nat,
    /// How many pages were received.
    pub page_count: nat,
    /// How many pages the server says the list has.
    pub expected_pages: Option<nat>,
}

impl CrawlView {
    /// The crawl before its first fetch.
    pub open spec fn start(object_type: Seq<char>, first_url: Seq<char>) -> CrawlView {
        CrawlView {
            object_type,
            next_url: Some(first_url),
            failures: 0,
            object_count: 0,
            page_count: 0,
            expected_pages: None,
        }
    }

    /// What the caller is to do in this state, outside of a retry.
    pub open spec fn action(self) -> ActionView {
        match self.next_url {
            Some(url) => ActionView::Fetch(url),
            None => ActionView::Finished,
        }
    }

    /// Whether another failure of the current page still leaves an attempt.
    pub open spec fn may_retry(self) -> bool {
        self.failures + 1 < MAX_ATTEMPTS
    }

    /// The state after the fetch of the current page failed.
    pub open spec fn after_failure(self) -> CrawlView {
        if self.next_url is None {
            self
        } else if self.may_retry() {
            CrawlView { failures: self.failures + 1, ..self }
        } else {
            CrawlView { next_url: None, failures: 0, ..self }
        }
    }

    /// What a failed fetch writes: one finding, which says whether the page
    /// is tried again.
    pub open spec fn failure_ops(self, error: Seq<char>) -> Seq<StoreOp> {
        match self.next_url {
            None => Seq::empty(),
            Some(url) => if self.may_retry() {
                seq![StoreOp::Finding(retry_problem(url, error))]
            } else {
                seq![StoreOp::Finding(given_up_problem(url, error))]
            },
        }
    }

    /// What the caller is to do after a failed fetch.
    pub open spec fn failure_action(self) -> ActionView {
        match self.next_url {
            None => ActionView::Finished,
            Some(url) => if self.may_retry() {
                ActionView::RetryAfter { url, seconds: RETRY_DELAY_SECONDS as nat }
            } else {
                ActionView::Finished
            },
        }
    }

    /// The state after the current page arrived and fitted the schema.
    pub open spec fn after_page(self, page: ExternalList<OparlObject>) -> CrawlView {
        if self.next_url is None {
            self
        } else {
            CrawlView {
                object_type: self.object_type,
                next_url: opt_string(page.links.next),
                failures: 0,
                object_count: capped(self.object_count + page.data@.len()),
                page_count: capped(self.page_count + 1),
                expected_pages: match page.pagination.total_pages {
                    Some(n) => Some(n as nat),
                    None => self.expected_pages,
                },
            }
        }
    }

    /// What a page that fitted the schema writes: the visit of each of its
    /// objects, in order, on the page's URL.
    pub open spec fn page_ops(self, page: ExternalList<OparlObject>) -> Seq<StoreOp> {
        match self.next_url {
            None => Seq::empty(),
            Some(url) => objects_ops(page.data@, page.data@.len(), url),
        }
    }

    /// The state after the current page arrived but did not fit the schema;
    /// `recovered` is the next URL as far as it could be read from the page.
    pub open spec fn after_unreadable(self, recovered: Option<Seq<char>>) -> CrawlView {
        if self.next_url is None {
            self
        } else {
            CrawlView {
                next_url: recovered,
                failures: 0,
                page_count: capped(self.page_count + 1),
                ..self
            }
        }
    }

    /// What a page that did not fit the schema writes: one finding.
    pub open spec fn unreadable_ops(self, error: Seq<char>) -> Seq<StoreOp> {
        match self.next_url {
            None => Seq::empty(),
            Some(url) => seq![StoreOp::Finding(invalid_page_problem(url, error))],
        }
    }

    /// The closing message of the crawl.
    pub open spec fn summary(self) -> Seq<char> {
        "Found "@ + decimal(self.object_count) + " "@ + self.object_type + " in "@ + decimal(
            self.page_count,
        ) + " pages"@
    }
}

/// A page that fails twice and then arrives is reported twice as retried,
/// never as given up, and is then read as if nothing had failed.
pub proof fn lemma_retry_then_succeed(
    c: CrawlView,
    s: StorageView,
    url: Seq<char>,
    first_error: Seq<char>,
    second_error: Seq<char>,
    page: ExternalList<OparlObject>,
)
    requires
        c.next_url == Some(url),
        c.failures == 0,
    ensures
        c.failure_action() == (ActionView::RetryAfter {
            url,
            seconds: RETRY_DELAY_SECONDS as nat,
        }),
        c.after_failure().failure_action() == (ActionView::RetryAfter {
            url,
            seconds: RETRY_DELAY_SECONDS as nat,
        }),
        s.apply_all(c.failure_ops(first_error)).apply_all(
            c.after_failure().failure_ops(second_error),
        ) == s.add_problem(retry_problem(url, first_error)).add_problem(
            retry_problem(url, second_error),
        ),
        c.after_failure().after_failure().page_ops(page) == objects_ops(
            page.data@,
            page.data@.len(),
            url,
        ),
        c.after_failure().after_failure().after_page(page) == c.after_page(page),
{
    lemma_apply_one(s, StoreOp::Finding(retry_problem(url, first_error)));
    lemma_apply_one(
        s.add_problem(retry_problem(url, first_error)),
        StoreOp::Finding(retry_problem(url, second_error)),
    );
}

/// A page that fails three times in a row is reported twice as retried and
/// once as given up. The crawl is over then and asks for nothing more.
pub proof fn lemma_retry_exhaustion(
    c: CrawlView,
    s: StorageView,
    url: Seq<char>,
    e1: Seq<char>,
    e2: Seq<char>,
    e3: Seq<char>,
)
    requires
        c.next_url == Some(url),
        c.failures == 0,
    ensures
        s.apply_all(c.failure_ops(e1)).apply_all(c.after_failure().failure_ops(e2)).apply_all(
            c.after_failure().after_failure().failure_ops(e3),
        ) == s.add_problem(retry_problem(url, e1)).add_problem(retry_problem(url, e2)).add_problem(
            given_up_problem(url, e3),
        ),
        c.after_failure().after_failure().failure_action() == ActionView::Finished,
        c.after_failure().after_failure().after_failure().next_url is None,
        c.after_failure().after_failure().after_failure().object_count == c.object_count,
        c.after_failure().after_failure().after_failure().action() == ActionView::Finished,
{
    let s1 = s.add_problem(retry_problem(url, e1));
    let s2 = s1.add_problem(retry_problem(url, e2));
    lemma_apply_one(s, StoreOp::Finding(retry_problem(url, e1)));
    lemma_apply_one(s1, StoreOp::Finding(retry_problem(url, e2)));
    lemma_apply_one(s2, StoreOp::Finding(given_up_problem(url, e3)));
}

/// A crawl that is over stays as it is: whatever is reported to it, nothing
/// is visited, reported or counted, and it asks for nothing more.
pub proof fn lemma_ended_crawl_is_inert(
    c: CrawlView,
    page: ExternalList<OparlObject>,
    error: Seq<char>,
    recovered: Option<Seq<char>>,
)
    requires
        c.next_url is None,
    ensures
        c.action() == ActionView::Finished,
        c.page_ops(page) == Seq::<StoreOp>::empty(),
        c.after_page(page) == c,
        c.failure_ops(error) == Seq::<StoreOp>::empty(),
        c.after_failure() == c,
        c.failure_action() == ActionView::Finished,
        c.unreadable_ops(error) == Seq::<StoreOp>::empty(),
        c.after_unreadable(recovered) == c,
{
}

/// The state after the first `n` of `pages` arrived one after the other, each
/// fitting the schema.
pub open spec fn crawl_after(
    c: CrawlView,
    pages: Seq<ExternalList<OparlObject>>,
    n: nat,
) -> CrawlView
    decreases n,
{
    if n == 0 || n > pages.len() {
        c
    } else {
        crawl_after(c, pages, (n - 1) as nat).after_page(pages[n - 1])
    }
}

/// What the arrival of the first `n` of `pages` writes.
pub open spec fn crawl_ops(c: CrawlView, pages: Seq<ExternalList<OparlObject>>, n: nat) -> Seq<
    StoreOp,
>
    decreases n,
{
    if n == 0 || n > pages.len() {
        Seq::empty()
    } else {
        crawl_ops(c, pages, (n - 1) as nat) + crawl_after(c, pages, (n - 1) as nat).page_ops(
            pages[n - 1],
        )
    }
}

/// The URL of the page at `i` in a list that starts at `first`: each page is
/// found under the `next` link of the page before it.
pub open spec fn page_url(first: Seq<char>, pages: Seq<ExternalList<OparlObject>>, i: int) -> Seq<
    char,
> {
    if i <= 0 {
        first
    } else {
        match opt_string(pages[i - 1].links.next) {
            Some(url) => url,
            None => Seq::empty(),
        }
    }
}

/// The visits of every object on the first `n` of `pages`, page by page.
pub open spec fn all_visits(first: Seq<char>, pages: Seq<ExternalList<OparlObject>>, n: nat) -> Seq<
    StoreOp,
>
    decreases n,
{
    if n == 0 || n > pages.len() {
        Seq::empty()
    } else {
        all_visits(first, pages, (n - 1) as nat) + objects_ops(
            pages[n - 1].data@,
            pages[n - 1].data@.len(),
            page_url(first, pages, n - 1),
        )
    }
}

/// How many objects the first `n` of `pages` hold.
pub open spec fn total_objects(pages: Seq<ExternalList<OparlObject>>, n: nat) -> nat
    decreases n,
{
    if n == 0 || n > pages.len() {
        0
    } else {
        total_objects(pages, (n - 1) as nat) + pages[n - 1].data@.len()
    }
}

/// A list of pages of which none fails is read to its end: if every page but
/// the last names a next page, then after the first `n` pages every object on
/// them has been visited, on the URL of its page and in order, the counters
/// hold the number of pages and the sum of their objects (as far as a
/// `usize` can count), and the crawl asks for the page that the last of them
/// names as next, or for nothing where it names none.
pub proof fn lemma_crawl_reads_every_page(
    object_type: Seq<char>,
    first: Seq<char>,
    pages: Seq<ExternalList<OparlObject>>,
    n: nat,
)
    requires
        0 < n <= pages.len(),
        forall|i: int| 0 <= i < n - 1 ==> (#[trigger] pages[i]).links.next is Some,
    ensures
        crawl_ops(CrawlView::start(object_type, first), pages, n) == all_visits(first, pages, n),
        crawl_after(CrawlView::start(object_type, first), pages, n).object_count == capped(
            total_objects(pages, n),
        ),
        crawl_after(CrawlView::start(object_type, first), pages, n).page_count == capped(n),
        crawl_after(CrawlView::start(object_type, first), pages, n).next_url == opt_string(
            pages[n - 1].links.next,
        ),
        crawl_after(CrawlView::start(object_type, first), pages, n).action() == (match opt_string(
            pages[n - 1].links.next,
        ) {
            Some(url) => ActionView::Fetch(url),
            None => ActionView::Finished,
        }),
    decreases n,
{
    let c = CrawlView::start(object_type, first);
    if n > 1 {
        lemma_crawl_reads_every_page(object_type, first, pages, (n - 1) as nat);
        let before = crawl_after(c, pages, (n - 1) as nat);
        assert(pages[n - 2].links.next is Some);
        assert(before.next_url == Some(page_url(first, pages, n - 1)));
        assert(total_objects(pages, n) == total_objects(pages, (n - 1) as nat) + pages[n
            - 1].data@.len());
        assert(crawl_after(c, pages, n) == before.after_page(pages[n - 1]));
    } else {
        assert(total_objects(pages, 0) == 0);
        assert(total_objects(pages, n) == total_objects(pages, 0) + pages[0].data@.len());
        assert(crawl_after(c, pages, n) == c.after_page(pages[0]));
        assert(crawl_after(c, pages, 0) == c);
        assert(crawl_ops(c, pages, 0) =~= Seq::empty());
        assert(all_visits(first, pages, 0) =~= Seq::empty());
    }
}

/// The crawl of one list.
pub struct ListCrawl {
    object_type: &'static str,
    next_url: Option<String>,
    failures: u8,
    object_count: usize,
    page_count: usize,
    expected_pages: Option<usize>,
}

impl View for ListCrawl {
    type V = CrawlView;

    closed spec fn view(&self) -> CrawlView {
        CrawlView {
            object_type: self.object_type@,
            next_url: opt_string(self.next_url),
            failures: self.failures as nat,
            object_count: self.object_count as nat,
            page_count: self.page_count as nat,
            expected_pages: match self.expected_pages {
                Some(n) => Some(n as nat),
                None => None,
            },
        }
    }
}

fn saturating_sum(a: usize, b: usize) -> (r: usize)
    ensures
        r == capped((a + b) as nat),
{
    if a > usize::MAX - b {
        usize::MAX
    } else {
        a + b
    }
}

impl ListCrawl {
    /// A crawl of the list of `object_type` objects that starts at `first_url`.
    pub fn new(object_type: &'static str, first_url: &str) -> (r: ListCrawl)
        ensures
            r@ == CrawlView::start(object_type@, first_url@),
    {
        ListCrawl {
            object_type,
            next_url: Some(String::from_str(first_url)),
            failures: 0,
            object_count: 0,
            page_count: 0,
            expected_pages: None,
        }
    }

    /// What to do in the current state: fetch the next page, or nothing.
    pub fn next_action(&self) -> (r: CrawlAction)
        ensures
            r@ == self@.action(),
    {
        match &self.next_url {
            Some(url) => CrawlAction::Fetch(url.clone()),
            None => CrawlAction::Finished,
        }
    }

    /// Whether the crawl has ended.
    pub fn is_finished(&self) -> (r: bool)
        ensures
            r == (self@.next_url is None),
    {
        self.next_url.is_none()
    }

    /// How many objects were visited.
    pub fn object_count(&self) -> (r: usize)
        ensures
            r == self@.object_count,
    {
        self.object_count
    }

    /// How many pages were received.
    pub fn page_count(&self) -> (r: usize)
        ensures
            r == self@.page_count,
    {
        self.page_count
    }

    /// How many pages the server says the list has, once it has said so.
    pub fn expected_pages(&self) -> (r: Option<usize>)
        ensures
            match r {
                Some(n) => self@.expected_pages == Some(n as nat),
                None => self@.expected_pages is None,
            },
    {
        self.expected_pages
    }

    /// The fetch of the current page failed with `error`. While attempts are
    /// left the failure is reported and the page is to be fetched again after
    /// a delay; after the last attempt the list is given up.
    pub fn on_fetch_failed(&mut self, store: &mut Storage, error: &str) -> (r: CrawlAction)
        ensures
            final(self)@ == old(self)@.after_failure(),
            final(store)@ == old(store)@.apply_all(old(self)@.failure_ops(error@)),
            old(store)@.wf() ==> final(store)@.wf(),
            r@ == old(self)@.failure_action(),
    {
        let url = match &self.next_url {
            None => {
                proof {
                    lemma_apply_nothing(store@);
                }
                return CrawlAction::Finished;
            },
            Some(url) => url.clone(),
        };
        if self.failures < MAX_ATTEMPTS - 1 {
            self.failures = self.failures + 1;
            let problem = Problem {
                detail: concat4(
                    "Abfrage von ",
                    url.as_str(),
                    " ist fehlgeschlagen, wird erneut versucht: ",
                    error,
                ),
                path: String::new(),
                kind: ProblemKind::HttpRequestFailedRetrying,
            };
            proof {
                lemma_apply_one(store@, StoreOp::Finding(problem@));
            }
            store.add_problem(problem);
            CrawlAction::RetryAfter { url, seconds: RETRY_DELAY_SECONDS }
        } else {
            let problem = Problem {
                detail: concat4(
                    "Die Abfrage ",
                    url.as_str(),
                    " ist zu oft fehlgeschlagen, eine Validierung der Liste ist nicht möglich: ",
                    error,
                ),
                path: String::new(),
                kind: ProblemKind::HttpRequestFailedTooOften,
            };
            proof {
                lemma_apply_one(store@, StoreOp::Finding(problem@));
            }
            store.add_problem(problem);
            self.next_url = None;
            self.failures = 0;
            CrawlAction::Finished
        }
    }

    /// The current page arrived and fitted the schema. Every object on it is
    /// visited, and the crawl moves on to the page that this one names as
    /// next, or ends where it names none.
    pub fn on_page(&mut self, store: &mut Storage, page: &ExternalList<OparlObject>) -> (r:
        CrawlAction)
        ensures
            final(self)@ == old(self)@.after_page(*page),
            final(store)@ == old(store)@.apply_all(old(self)@.page_ops(*page)),
            old(store)@.wf() ==> final(store)@.wf(),
            r@ == final(self)@.action(),
    {
        let url = match &self.next_url {
            None => {
                proof {
                    lemma_apply_nothing(store@);
                }
                return CrawlAction::Finished;
            },
            Some(url) => url.clone(),
        };
        let mut i: usize = 0;
        proof {
            lemma_apply_nothing(store@);
        }
        while i < page.data.len()
            invariant
                i <= page.data@.len(),
                store@ == old(store)@.apply_all(objects_ops(page.data@, i as nat, url@)),
            decreases page.data@.len() - i,
        {
            page.data[i].visit(store, url.as_str());
            proof {
                lemma_apply_all_concat(
                    old(store)@,
                    objects_ops(page.data@, i as nat, url@),
                    object_ops(page.data@[i as int], url@),
                );
            }
            i += 1;
        }
        proof {
            if old(store)@.wf() {
                lemma_apply_all_keeps_wf(old(store)@, old(self)@.page_ops(*page));
            }
        }
        self.failures = 0;
        self.page_count = saturating_sum(self.page_count, 1);
        self.object_count = saturating_sum(self.object_count, page.data.len());
        self.next_url = page.links.next.clone();
        if let Some(total) = page.pagination.total_pages {
            self.expected_pages = Some(total);
        }
        self.next_action()
    }

    /// The current page arrived as JSON but did not fit the schema, with the
    /// deserializer's `error`. The page is reported and skipped; the crawl
    /// goes on at the `next` link that the raw page holds, if it holds one.
    pub fn on_invalid_page(
        &mut self,
        store: &mut Storage,
        raw: &serde_json::Value,
        error: &str,
    ) -> (r: CrawlAction)
        ensures
            final(self)@ == old(self)@.after_unreadable(raw_next(*raw)),
            final(store)@ == old(store)@.apply_all(old(self)@.unreadable_ops(error@)),
            old(store)@.wf() ==> final(store)@.wf(),
            r@ == final(self)@.action(),
    {
        let recovered = next_link(raw);
        self.skip_page(store, recovered, error)
    }

    /// Reports the current page as unreadable and moves on to `recovered`,
    /// or ends the crawl where nothing was recovered.
    pub fn skip_page(&mut self, store: &mut Storage, recovered: Option<String>, error: &str) -> (r:
        CrawlAction)
        ensures
            final(self)@ == old(self)@.after_unreadable(opt_string(recovered)),
            final(store)@ == old(store)@.apply_all(old(self)@.unreadable_ops(error@)),
            old(store)@.wf() ==> final(store)@.wf(),
            r@ == final(self)@.action(),
    {
        let url = match &self.next_url {
            None => {
                proof {
                    lemma_apply_nothing(store@);
                }
                return CrawlAction::Finished;
            },
            Some(url) => url.clone(),
        };
        let problem = Problem {
            detail: concat4(
                "Die Liste unter ",
                url.as_str(),
                " passt nicht zum Schema von externen Listen: ",
                error,
            ),
            path: String::new(),
            kind: ProblemKind::InvalidJson,
        };
        proof {
            lemma_apply_one(store@, StoreOp::Finding(problem@));
        }
        store.add_problem(problem);
        self.failures = 0;
        self.page_count = saturating_sum(self.page_count, 1);
        self.next_url = recovered;
        self.next_action()
    }

    /// The closing message of the crawl: how many objects of which type it
    /// found in how many pages.
    pub fn summary(&self) -> (r: String)
        ensures
            r@ == self@.summary(),
    {
        let objects = decimal_text(self.object_count);
        let pages = decimal_text(self.page_count);
        let mut r = concat4("Found ", objects.as_str(), " ", self.object_type);
        r.append(" in ");
        r.append(pages.as_str());
        r.append(" pages");
        r
    }
}

} // verus!
