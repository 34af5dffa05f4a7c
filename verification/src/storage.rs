//! The cross-reference store: which objects were seen, which were referenced
//! and from where, which other URLs occurred, and the log of findings.

use crate::grouping::{group_problems, grouped, groups_view, is_grouping, ProblemGroup};
use crate::text::equal;
use crate::visit::{KindView, Problem, ProblemView};
use vstd::hash_set::StringHashSet;
use vstd::prelude::*;

verus! {

/// The references to one object: its type, its URL and, in the order in which
/// they were found, the places that refer to it. There is at least one.
#[derive(Debug, PartialEq, Eq)]
pub struct Link {
    pub object_type: &'static str,
    pub target: String,
    /// The place that referred to the object first.
    pub first_source: String,
    /// The places that referred to it after that.
    pub other_sources: Vec<String>,
}

/// Mathematical value of a [`Link`].
pub struct LinkView {
    pub object_type: Seq<char>,
    pub target: Seq<char>,
    pub sources: Seq<Seq<char>>,
}

/// Views of a sequence of texts.
pub open spec fn texts_view(v: Seq<String>) -> Seq<Seq<char>> {
    v.map_values(|s: String| s@)
}

/// Views of a sequence of findings.
pub open spec fn problems_view(v: Seq<Problem>) -> Seq<ProblemView> {
    v.map_values(|p: Problem| p@)
}

/// Views of a sequence of links.
pub open spec fn links_view(v: Seq<Link>) -> Seq<LinkView> {
    v.map_values(|l: Link| l@)
}

impl View for Link {
    type V = LinkView;

    open spec fn view(&self) -> LinkView {
        LinkView {
            object_type: self.object_type@,
            target: self.target@,
            sources: seq![self.first_source@] + texts_view(self.other_sources@),
        }
    }
}

impl Link {
    /// The places that refer to the object, in the order in which they were found.
    pub fn sources(&self) -> (r: Vec<String>)
        ensures
            texts_view(r@) == self@.sources,
    {
        let mut all: Vec<String> = Vec::new();
        all.push(self.first_source.clone());
        let mut i: usize = 0;
        assert(texts_view(all@) =~= seq![self.first_source@] + texts_view(
            self.other_sources@,
        ).subrange(0, 0));
        while i < self.other_sources.len()
            invariant
                i <= self.other_sources@.len(),
                texts_view(all@) == seq![self.first_source@] + texts_view(
                    self.other_sources@,
                ).subrange(0, i as int),
            decreases self.other_sources@.len() - i,
        {
            let ghost before = all@;
            let source = self.other_sources[i].clone();
            all.push(source);
            assert(texts_view(all@) =~= texts_view(before).push(source@));
            assert(texts_view(all@) =~= seq![self.first_source@] + texts_view(
                self.other_sources@,
            ).subrange(0, i + 1));
            i += 1;
        }
        assert(texts_view(self.other_sources@).subrange(0, i as int) =~= texts_view(
            self.other_sources@,
        ));
        all
    }
}

impl LinkView {
    /// Whether this entry is the one for the object of type `object_type` at `target`.
    pub open spec fn is_for(self, object_type: Seq<char>, target: Seq<char>) -> bool {
        self.object_type == object_type && self.target == target
    }
}

/// Index of the first entry for `(object_type, target)`, or the length of
/// `links` where there is none.
pub open spec fn position(links: Seq<LinkView>, object_type: Seq<char>, target: Seq<char>) -> int
    decreases links.len(),
{
    if links.len() == 0 {
        0
    } else {
        let before = position(links.drop_last(), object_type, target);
        if before < links.len() - 1 {
            before
        } else if links.last().is_for(object_type, target) {
            links.len() - 1
        } else {
            links.len() as int
        }
    }
}

/// `position` is the least index of a matching entry.
pub proof fn lemma_position(links: Seq<LinkView>, object_type: Seq<char>, target: Seq<char>)
    ensures
        0 <= position(links, object_type, target) <= links.len(),
        forall|j: int|
            0 <= j < position(links, object_type, target) ==> !(#[trigger] links[j]).is_for(
                object_type,
                target,
            ),
        position(links, object_type, target) < links.len() ==> links[position(
            links,
            object_type,
            target,
        )].is_for(object_type, target),
    decreases links.len(),
{
    if links.len() > 0 {
        lemma_position(links.drop_last(), object_type, target);
        let before = position(links.drop_last(), object_type, target);
        assert forall|j: int| 0 <= j < position(links, object_type, target) implies !(
        #[trigger] links[j]).is_for(object_type, target) by {
            if j < links.len() - 1 {
                assert(links[j] == links.drop_last()[j]);
            }
        }
        if before < links.len() - 1 {
            assert(links[before] == links.drop_last()[before]);
        }
    }
}

/// An index with the properties of `position` is `position`.
pub proof fn lemma_position_unique(
    links: Seq<LinkView>,
    object_type: Seq<char>,
    target: Seq<char>,
    i: int,
)
    requires
        0 <= i <= links.len(),
        forall|j: int| 0 <= j < i ==> !(#[trigger] links[j]).is_for(object_type, target),
        i < links.len() ==> links[i].is_for(object_type, target),
    ensures
        position(links, object_type, target) == i,
{
    lemma_position(links, object_type, target);
}

/// The observable state of a [`Storage`].
pub struct StorageView {
    /// The findings, in the order in which they were made.
    pub problems: Seq<ProblemView>,
    /// Ids of the objects that were visited.
    pub known_ids: Set<Seq<char>>,
    /// URLs that lead out of the object graph.
    pub known_other_urls: Set<Seq<char>>,
    /// One entry for each referenced object, in the order of first reference.
    pub links: Seq<LinkView>,
}

/// One write to the store.
pub enum StoreOp {
    /// An object with this id was visited.
    Id(Seq<char>),
    /// The object of type `object_type` at `target` is referenced from `source`.
    Link { object_type: Seq<char>, target: Seq<char>, source: Seq<char> },
    /// A URL that leads out of the object graph was seen.
    OtherUrl(Seq<char>),
    /// A defect was found.
    Finding(ProblemView),
}

impl StorageView {
    /// The store in which nothing has been recorded.
    pub open spec fn empty() -> StorageView {
        StorageView {
            problems: Seq::empty(),
            known_ids: Set::empty(),
            known_other_urls: Set::empty(),
            links: Seq::empty(),
        }
    }

    /// No two entries are for the same object, and every entry names a source.
    pub open spec fn wf(self) -> bool {
        &&& forall|i: int, j: int|
            0 <= i < j < self.links.len() ==> !(#[trigger] self.links[i]).is_for(
                (#[trigger] self.links[j]).object_type,
                self.links[j].target,
            )
        &&& forall|i: int|
            0 <= i < self.links.len() ==> (#[trigger] self.links[i]).sources.len() > 0
    }

    /// The sources recorded for the object of type `object_type` at `target`,
    /// in the order in which they were found; empty where it was never referenced.
    pub open spec fn sources_of(self, object_type: Seq<char>, target: Seq<char>) -> Seq<Seq<char>> {
        let i = position(self.links, object_type, target);
        if i < self.links.len() {
            self.links[i].sources
        } else {
            Seq::empty()
        }
    }

    /// The log grows by one finding.
    pub open spec fn add_problem(self, problem: ProblemView) -> StorageView {
        StorageView { problems: self.problems.push(problem), ..self }
    }

    /// The id joins the set of visited objects.
    pub open spec fn add_id(self, id: Seq<char>) -> StorageView {
        StorageView { known_ids: self.known_ids.insert(id), ..self }
    }

    /// The URL joins the set of other URLs.
    pub open spec fn add_other_url(self, url: Seq<char>) -> StorageView {
        StorageView { known_other_urls: self.known_other_urls.insert(url), ..self }
    }

    /// The source is appended to the entry of the referenced object, which is
    /// created at the end where this is the first reference to it.
    pub open spec fn add_link(
        self,
        object_type: Seq<char>,
        target: Seq<char>,
        source: Seq<char>,
    ) -> StorageView {
        let i = position(self.links, object_type, target);
        if i < self.links.len() {
            StorageView {
                links: self.links.update(
                    i,
                    LinkView { sources: self.links[i].sources.push(source), ..self.links[i] },
                ),
                ..self
            }
        } else {
            StorageView {
                links: self.links.push(LinkView { object_type, target, sources: seq![source] }),
                ..self
            }
        }
    }

    /// The store after one write.
    pub open spec fn apply(self, op: StoreOp) -> StorageView {
        match op {
            StoreOp::Id(id) => self.add_id(id),
            StoreOp::Link { object_type, target, source } => self.add_link(
                object_type,
                target,
                source,
            ),
            StoreOp::OtherUrl(url) => self.add_other_url(url),
            StoreOp::Finding(problem) => self.add_problem(problem),
        }
    }

    /// The store after the writes `ops`, made in order.
    pub open spec fn apply_all(self, ops: Seq<StoreOp>) -> StorageView
        decreases ops.len(),
    {
        if ops.len() == 0 {
            self
        } else {
            self.apply_all(ops.drop_last()).apply(ops.last())
        }
    }
}

/// Writing `a` and then `b` is writing `a + b`.
pub proof fn lemma_apply_all_concat(s: StorageView, a: Seq<StoreOp>, b: Seq<StoreOp>)
    ensures
        s.apply_all(a + b) == s.apply_all(a).apply_all(b),
    decreases b.len(),
{
    if b.len() == 0 {
        assert(a + b =~= a);
    } else {
        lemma_apply_all_concat(s, a, b.drop_last());
        assert((a + b).drop_last() =~= a + b.drop_last());
        assert((a + b).last() == b.last());
    }
}

/// Writing nothing changes nothing.
pub proof fn lemma_apply_nothing(s: StorageView)
    ensures
        s.apply_all(Seq::empty()) == s,
{
}

/// Writing one thing is `apply`.
pub proof fn lemma_apply_one(s: StorageView, op: StoreOp)
    ensures
        s.apply_all(seq![op]) == s.apply(op),
{
    assert(seq![op].drop_last() =~= Seq::<StoreOp>::empty());
    assert(s.apply_all(seq![op]) == s.apply_all(seq![op].drop_last()).apply(seq![op].last()));
}

/// Whether the write is a finding of `kind` at `path`.
pub open spec fn is_finding_at(op: StoreOp, kind: KindView, path: Seq<char>) -> bool {
    match op {
        StoreOp::Finding(problem) => problem.kind == kind && problem.path == path,
        _ => false,
    }
}

/// How many of the writes are findings of `kind` at `path`.
pub open spec fn count_findings(ops: Seq<StoreOp>, kind: KindView, path: Seq<char>) -> nat
    decreases ops.len(),
{
    if ops.len() == 0 {
        0
    } else {
        count_findings(ops.drop_last(), kind, path) + if is_finding_at(ops.last(), kind, path) {
            1nat
        } else {
            0nat
        }
    }
}

/// How many of the findings are of `kind` at `path`.
pub open spec fn count_problems(problems: Seq<ProblemView>, kind: KindView, path: Seq<char>) -> nat
    decreases problems.len(),
{
    if problems.len() == 0 {
        0
    } else {
        count_problems(problems.drop_last(), kind, path) + if problems.last().kind == kind
            && problems.last().path == path {
            1nat
        } else {
            0nat
        }
    }
}

/// The findings among `a + b` are those among `a` and those among `b`.
pub proof fn lemma_count_findings_concat(
    a: Seq<StoreOp>,
    b: Seq<StoreOp>,
    kind: KindView,
    path: Seq<char>,
)
    ensures
        count_findings(a + b, kind, path) == count_findings(a, kind, path) + count_findings(
            b,
            kind,
            path,
        ),
    decreases b.len(),
{
    if b.len() == 0 {
        assert(a + b =~= a);
    } else {
        lemma_count_findings_concat(a, b.drop_last(), kind, path);
        assert((a + b).drop_last() =~= a + b.drop_last());
        assert((a + b).last() == b.last());
    }
}

/// One write counts as one finding where it is one of `kind` at `path`.
pub proof fn lemma_count_findings_one(op: StoreOp, kind: KindView, path: Seq<char>)
    ensures
        count_findings(seq![op], kind, path) == if is_finding_at(op, kind, path) {
            1nat
        } else {
            0nat
        },
        count_findings(Seq::empty(), kind, path) == 0,
{
    let one = seq![op];
    assert(one.drop_last() =~= Seq::<StoreOp>::empty());
    assert(one.last() == op);
    assert(count_findings(one.drop_last(), kind, path) == 0);
    assert(count_findings(one, kind, path) == count_findings(one.drop_last(), kind, path)
        + if is_finding_at(one.last(), kind, path) {
        1nat
    } else {
        0nat
    });
}

/// The log of the store grows by exactly the findings among the writes.
pub proof fn lemma_apply_all_counts(
    s: StorageView,
    ops: Seq<StoreOp>,
    kind: KindView,
    path: Seq<char>,
)
    ensures
        count_problems(s.apply_all(ops).problems, kind, path) == count_problems(
            s.problems,
            kind,
            path,
        ) + count_findings(ops, kind, path),
    decreases ops.len(),
{
    if ops.len() > 0 {
        let before = s.apply_all(ops.drop_last());
        lemma_apply_all_counts(s, ops.drop_last(), kind, path);
        match ops.last() {
            StoreOp::Finding(problem) => {
                assert(before.apply(ops.last()).problems.drop_last() =~= before.problems);
                assert(before.apply(ops.last()).problems.last() == problem);
            },
            _ => {},
        }
    }
}

/// Every write keeps the store well formed.
pub proof fn lemma_apply_keeps_wf(s: StorageView, op: StoreOp)
    requires
        s.wf(),
    ensures
        s.apply(op).wf(),
{
    match op {
        StoreOp::Link { object_type, target, source } => {
            lemma_position(s.links, object_type, target);
            let i = position(s.links, object_type, target);
            let t = s.apply(op);
            if i < s.links.len() {
                assert forall|a: int, b: int| 0 <= a < b < t.links.len() implies !(
                #[trigger] t.links[a]).is_for(
                    (#[trigger] t.links[b]).object_type,
                    t.links[b].target,
                ) by {
                    assert(!s.links[a].is_for(s.links[b].object_type, s.links[b].target));
                }
            } else {
                assert forall|a: int, b: int| 0 <= a < b < t.links.len() implies !(
                #[trigger] t.links[a]).is_for(
                    (#[trigger] t.links[b]).object_type,
                    t.links[b].target,
                ) by {
                    if b < s.links.len() {
                        assert(!s.links[a].is_for(s.links[b].object_type, s.links[b].target));
                    } else {
                        assert(!s.links[a].is_for(object_type, target));
                    }
                }
            }
        },
        _ => {},
    }
}

/// Every sequence of writes keeps a well-formed store well formed.
pub proof fn lemma_apply_all_keeps_wf(s: StorageView, ops: Seq<StoreOp>)
    ensures
        s.wf() ==> s.apply_all(ops).wf(),
    decreases ops.len(),
{
    if s.wf() && ops.len() > 0 {
        lemma_apply_all_keeps_wf(s, ops.drop_last());
        lemma_apply_keeps_wf(s.apply_all(ops.drop_last()), ops.last());
    }
}

/// A reference is appended to the sources of its object, and the sources of
/// every other object stay as they are.
pub proof fn lemma_add_link_appends(
    s: StorageView,
    object_type: Seq<char>,
    target: Seq<char>,
    source: Seq<char>,
)
    ensures
        s.add_link(object_type, target, source).sources_of(object_type, target) == s.sources_of(
            object_type,
            target,
        ).push(source),
        forall|t: Seq<char>, u: Seq<char>|
            !(t == object_type && u == target) ==> #[trigger] s.add_link(
                object_type,
                target,
                source,
            ).sources_of(t, u) == s.sources_of(t, u),
{
    let after = s.add_link(object_type, target, source);
    let i = position(s.links, object_type, target);
    lemma_position(s.links, object_type, target);
    lemma_position_unique(after.links, object_type, target, i);
    if i >= s.links.len() {
        assert(s.sources_of(object_type, target).push(source) =~= seq![source]);
    }
    assert forall|t: Seq<char>, u: Seq<char>| !(t == object_type && u == target) implies #[trigger]
    after.sources_of(t, u) == s.sources_of(t, u) by {
        let j = position(s.links, t, u);
        lemma_position(s.links, t, u);
        assert forall|k: int| 0 <= k < j implies !(#[trigger] after.links[k]).is_for(t, u) by {
            assert(!s.links[k].is_for(t, u));
        }
        lemma_position_unique(after.links, t, u, if j < s.links.len() {
            j
        } else {
            after.links.len() as int
        });
    }
}

/// References accumulate: two references to the same object, whether from
/// different sources or from the same one, leave two entries among its
/// sources, in the order in which they were made.
pub proof fn lemma_links_accumulate(
    s: StorageView,
    object_type: Seq<char>,
    target: Seq<char>,
    first: Seq<char>,
    second: Seq<char>,
)
    ensures
        s.add_link(object_type, target, first).add_link(object_type, target, second).sources_of(
            object_type,
            target,
        ) == s.sources_of(object_type, target).push(first).push(second),
{
    lemma_add_link_appends(s, object_type, target, first);
    lemma_add_link_appends(s.add_link(object_type, target, first), object_type, target, second);
}

/// Accumulates what the visitor and the crawlers observe.
pub struct Storage {
    problems: Vec<Problem>,
    known_ids: StringHashSet,
    known_other_urls: StringHashSet,
    linked_ids: Vec<Link>,
}

impl View for Storage {
    type V = StorageView;

    closed spec fn view(&self) -> StorageView {
        StorageView {
            problems: problems_view(self.problems@),
            known_ids: self.known_ids@,
            known_other_urls: self.known_other_urls@,
            links: links_view(self.linked_ids@),
        }
    }
}

impl Default for Storage {
    fn default() -> (r: Storage)
        ensures
            r@ == StorageView::empty(),
    {
        Storage::new()
    }
}

impl Storage {
    /// A store in which nothing has been recorded.
    pub fn new() -> (r: Storage)
        ensures
            r@ == StorageView::empty(),
    {
        let r = Storage {
            problems: Vec::new(),
            known_ids: StringHashSet::new(),
            known_other_urls: StringHashSet::new(),
            linked_ids: Vec::new(),
        };
        assert(r@.problems =~= Seq::empty());
        assert(r@.links =~= Seq::empty());
        r
    }

    /// Appends a finding to the log.
    pub fn add_problem(&mut self, problem: Problem)
        ensures
            final(self)@ == old(self)@.add_problem(problem@),
            old(self)@.wf() ==> final(self)@.wf(),
    {
        self.problems.push(problem);
        assert(problems_view(self.problems@) =~= problems_view(old(self).problems@).push(problem@));
    }

    /// Adds the id of an object that was visited.
    pub fn add_id(&mut self, id: String)
        ensures
            final(self)@ == old(self)@.add_id(id@),
            old(self)@.wf() ==> final(self)@.wf(),
    {
        self.known_ids.insert(id);
        assert(self@.links == old(self)@.links);
    }

    /// Adds a URL that leads out of the object graph.
    pub fn add_other_url(&mut self, url: String)
        ensures
            final(self)@ == old(self)@.add_other_url(url@),
            old(self)@.wf() ==> final(self)@.wf(),
    {
        self.known_other_urls.insert(url);
        assert(self@.links == old(self)@.links);
    }

    /// Records that `source` refers to the object of type `object_type` at `target`.
    pub fn add_link(&mut self, object_type: &'static str, target: String, source: String)
        ensures
            final(self)@ == old(self)@.add_link(object_type@, target@, source@),
            old(self)@.wf() ==> final(self)@.wf(),
    {
        let ghost before = self@;
        let mut i: usize = 0;
        let mut found = false;
        while i < self.linked_ids.len() && !found
            invariant
                *self == *old(self),
                i <= self.linked_ids.len(),
                forall|j: int|
                    0 <= j < i ==> !(#[trigger] links_view(self.linked_ids@)[j]).is_for(
                        object_type@,
                        target@,
                    ),
                found ==> i < self.linked_ids.len() && links_view(self.linked_ids@)[i as int].is_for(
                    object_type@,
                    target@,
                ),
            decreases self.linked_ids.len() - i + (if found { 0int } else { 1int }),
        {
            if equal(self.linked_ids[i].object_type, object_type) && equal(
                self.linked_ids[i].target.as_str(),
                target.as_str(),
            ) {
                found = true;
            } else {
                i += 1;
            }
        }
        proof {
            lemma_position_unique(before.links, object_type@, target@, i as int);
        }
        let ghost old_links = self.linked_ids@;
        if i < self.linked_ids.len() {
            self.linked_ids[i].other_sources.push(source);
            proof {
                let k = i as int;
                assert(self.linked_ids@.len() == old_links.len());
                assert(self.linked_ids@[k].other_sources@ == old_links[k].other_sources@.push(
                    source,
                ));
                assert(self.linked_ids@[k].first_source == old_links[k].first_source);
                assert(self.linked_ids@[k].object_type == old_links[k].object_type);
                assert(self.linked_ids@[k].target == old_links[k].target);
                assert(forall|j: int|
                    0 <= j < old_links.len() && j != k ==> self.linked_ids@[j] == old_links[j]);
                assert(texts_view(old_links[k].other_sources@.push(source)) =~= texts_view(
                    old_links[k].other_sources@,
                ).push(source@));
                assert(self.linked_ids@[k]@.sources =~= old_links[k]@.sources.push(source@));
            }
            assert(links_view(self.linked_ids@) =~= before.add_link(
                object_type@,
                target@,
                source@,
            ).links);
        } else {
            let link = Link { object_type, target, first_source: source, other_sources: Vec::new() };
            assert(link@.sources =~= seq![source@]);
            self.linked_ids.push(link);
            assert(links_view(self.linked_ids@) =~= before.add_link(
                object_type@,
                target@,
                source@,
            ).links);
        }
        proof {
            if before.wf() {
                lemma_apply_keeps_wf(
                    before,
                    StoreOp::Link { object_type: object_type@, target: target@, source: source@ },
                );
            }
        }
    }

    /// The findings, in the order in which they were made.
    pub fn problems(&self) -> (r: &Vec<Problem>)
        ensures
            problems_view(r@) == self@.problems,
    {
        &self.problems
    }

    /// The referenced objects, in the order of first reference.
    pub fn links(&self) -> (r: &Vec<Link>)
        ensures
            links_view(r@) == self@.links,
    {
        &self.linked_ids
    }

    /// Whether an object with this id was visited.
    pub fn has_id(&self, id: &str) -> (r: bool)
        ensures
            r == self@.known_ids.contains(id@),
    {
        self.known_ids.contains(id)
    }

    /// Whether this URL was recorded as leading out of the object graph.
    pub fn has_other_url(&self, url: &str) -> (r: bool)
        ensures
            r == self@.known_other_urls.contains(url@),
    {
        self.known_other_urls.contains(url)
    }

    /// The findings grouped by kind and path. The groups ascend by kind and
    /// then by path, so the result does not depend on the order of the log
    /// beyond the order of the findings within each group.
    pub fn problems_grouped(&self) -> (r: Vec<ProblemGroup>)
        ensures
            is_grouping(self@.problems, groups_view(r@)),
            groups_view(r@) == grouped(self@.problems),
    {
        group_problems(&self.problems)
    }
}

} // verus!
