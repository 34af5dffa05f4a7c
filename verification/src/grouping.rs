//! Grouping findings by kind and path, in an order that does not depend on
//! the order in which they were found.

use crate::storage::problems_view;
use crate::text::{
    equal, lemma_text_less_irreflexive, lemma_text_less_total, lemma_text_less_transitive, less,
    text_less,
};
use crate::visit::{KindView, Problem, ProblemKind, ProblemView};
use vstd::prelude::*;

verus! {

/// The findings of one kind at one path, in the order in which they were made.
#[derive(Debug, PartialEq, Eq)]
pub struct ProblemGroup {
    pub kind: ProblemKind,
    pub path: String,
    pub problems: Vec<Problem>,
}

/// Mathematical value of a [`ProblemGroup`].
pub struct GroupView {
    pub kind: KindView,
    pub path: Seq<char>,
    pub problems: Seq<ProblemView>,
}

impl View for ProblemGroup {
    type V = GroupView;

    open spec fn view(&self) -> GroupView {
        GroupView { kind: self.kind@, path: self.path@, problems: problems_view(self.problems@) }
    }
}

/// Views of a sequence of groups.
pub open spec fn groups_view(v: Seq<ProblemGroup>) -> Seq<GroupView> {
    v.map_values(|g: ProblemGroup| g@)
}

/// Strict order of group keys: by kind, then by path.
pub open spec fn key_less(
    kind_a: KindView,
    path_a: Seq<char>,
    kind_b: KindView,
    path_b: Seq<char>,
) -> bool {
    kind_a.less(kind_b) || (kind_a == kind_b && text_less(path_a, path_b))
}

/// Of two different kinds one comes before the other.
pub proof fn lemma_kind_less_total(a: KindView, b: KindView)
    ensures
        a.less(b) || b.less(a) || a == b,
{
    lemma_text_less_total(a.object_type(), b.object_type());
}

/// The order of kinds is transitive.
pub proof fn lemma_kind_less_transitive(a: KindView, b: KindView, c: KindView)
    requires
        a.less(b),
        b.less(c),
    ensures
        a.less(c),
{
    if a.rank() == b.rank() && b.rank() == c.rank() {
        lemma_text_less_transitive(a.object_type(), b.object_type(), c.object_type());
    }
}

/// No kind comes before itself.
pub proof fn lemma_kind_less_irreflexive(a: KindView)
    ensures
        !a.less(a),
{
    lemma_text_less_irreflexive(a.object_type());
}

/// Of two different keys one comes before the other.
pub proof fn lemma_key_less_total(
    kind_a: KindView,
    path_a: Seq<char>,
    kind_b: KindView,
    path_b: Seq<char>,
)
    ensures
        key_less(kind_a, path_a, kind_b, path_b) || key_less(kind_b, path_b, kind_a, path_a) || (
        kind_a == kind_b && path_a == path_b),
{
    lemma_kind_less_total(kind_a, kind_b);
    lemma_text_less_total(path_a, path_b);
}

/// The order of keys is transitive.
pub proof fn lemma_key_less_transitive(
    kind_a: KindView,
    path_a: Seq<char>,
    kind_b: KindView,
    path_b: Seq<char>,
    kind_c: KindView,
    path_c: Seq<char>,
)
    requires
        key_less(kind_a, path_a, kind_b, path_b),
        key_less(kind_b, path_b, kind_c, path_c),
    ensures
        key_less(kind_a, path_a, kind_c, path_c),
{
    if kind_a.less(kind_b) && kind_b.less(kind_c) {
        lemma_kind_less_transitive(kind_a, kind_b, kind_c);
    }
    lemma_kind_less_irreflexive(kind_a);
    if kind_a == kind_b && kind_b == kind_c {
        lemma_text_less_transitive(path_a, path_b, path_c);
    }
}

/// No key comes before itself.
pub proof fn lemma_key_less_irreflexive(k: KindView, p: Seq<char>)
    ensures
        !key_less(k, p, k, p),
{
    lemma_kind_less_irreflexive(k);
    lemma_text_less_irreflexive(p);
}

/// The findings of `kind` at `path` among `findings`, in their order.
pub open spec fn members(findings: Seq<ProblemView>, kind: KindView, path: Seq<char>) -> Seq<
    ProblemView,
>
    decreases findings.len(),
{
    if findings.len() == 0 {
        Seq::empty()
    } else {
        let rest = members(findings.drop_last(), kind, path);
        if findings.last().kind == kind && findings.last().path == path {
            rest.push(findings.last())
        } else {
            rest
        }
    }
}

/// Whether some finding among `findings` is of `kind` at `path`.
pub open spec fn occurs(findings: Seq<ProblemView>, kind: KindView, path: Seq<char>) -> bool {
    exists|k: int|
        0 <= k < findings.len() && (#[trigger] findings[k]).kind == kind && findings[k].path
            == path
}

/// `members` is empty exactly where the key does not occur.
pub proof fn lemma_members_empty(findings: Seq<ProblemView>, kind: KindView, path: Seq<char>)
    ensures
        members(findings, kind, path).len() > 0 <==> occurs(findings, kind, path),
    decreases findings.len(),
{
    if findings.len() > 0 {
        let rest = findings.drop_last();
        lemma_members_empty(rest, kind, path);
        if occurs(rest, kind, path) {
            let k = choose|k: int|
                0 <= k < rest.len() && (#[trigger] rest[k]).kind == kind && rest[k].path == path;
            assert(findings[k] == rest[k]);
        }
        if occurs(findings, kind, path) && !(findings.last().kind == kind && findings.last().path
            == path) {
            let k = choose|k: int|
                0 <= k < findings.len() && (#[trigger] findings[k]).kind == kind
                    && findings[k].path == path;
            assert(rest[k] == findings[k]);
        }
        if findings.last().kind == kind && findings.last().path == path {
            assert(findings[findings.len() - 1] == findings.last());
        }
    }
}

/// `groups` is the grouping of `findings`: the keys ascend strictly, each
/// group holds exactly the findings of its key, in their order, no group is
/// empty, and every finding has its group.
pub open spec fn is_grouping(findings: Seq<ProblemView>, groups: Seq<GroupView>) -> bool {
    &&& ascending(groups)
    &&& forall|i: int|
        0 <= i < groups.len() ==> (#[trigger] groups[i]).problems == members(
            findings,
            groups[i].kind,
            groups[i].path,
        ) && groups[i].problems.len() > 0
    &&& forall|k: int|
        0 <= k < findings.len() ==> has_group(
            groups,
            (#[trigger] findings[k]).kind,
            findings[k].path,
        )
}

/// Whether one of `groups` has the key `(kind, path)`.
pub open spec fn has_group(groups: Seq<GroupView>, kind: KindView, path: Seq<char>) -> bool {
    exists|j: int|
        0 <= j < groups.len() && (#[trigger] groups[j]).kind == kind && groups[j].path == path
}

/// The keys of `groups` ascend strictly.
pub open spec fn ascending(groups: Seq<GroupView>) -> bool {
    forall|i: int, j: int|
        0 <= i < j < groups.len() ==> key_less(
            (#[trigger] groups[i]).kind,
            groups[i].path,
            (#[trigger] groups[j]).kind,
            groups[j].path,
        )
}

/// Every key of `a` is a key of `b`.
pub open spec fn keys_within(a: Seq<GroupView>, b: Seq<GroupView>) -> bool {
    forall|i: int| 0 <= i < a.len() ==> has_group(b, (#[trigger] a[i]).kind, a[i].path)
}

/// In an ascending sequence a key stands at one index only.
proof fn lemma_ascending_distinct(a: Seq<GroupView>, i: int, j: int)
    requires
        ascending(a),
        0 <= i < a.len(),
        0 <= j < a.len(),
        a[i].kind == a[j].kind,
        a[i].path == a[j].path,
    ensures
        i == j,
{
    lemma_key_less_irreflexive(a[i].kind, a[i].path);
    if i < j {
        assert(key_less(a[i].kind, a[i].path, a[j].kind, a[j].path));
    } else if j < i {
        assert(key_less(a[j].kind, a[j].path, a[i].kind, a[i].path));
    }
}

/// Two ascending sequences with the same keys agree on the key at `n`, and
/// on every key before it.
proof fn lemma_same_key_at(a: Seq<GroupView>, b: Seq<GroupView>, n: int)
    requires
        ascending(a),
        ascending(b),
        keys_within(a, b),
        keys_within(b, a),
        0 <= n < a.len(),
        n < b.len(),
    ensures
        a[n].kind == b[n].kind,
        a[n].path == b[n].path,
    decreases n,
{
    let j = choose|j: int|
        0 <= j < b.len() && (#[trigger] b[j]).kind == a[n].kind && b[j].path == a[n].path;
    let k = choose|k: int|
        0 <= k < a.len() && (#[trigger] a[k]).kind == b[n].kind && a[k].path == b[n].path;
    if j < n {
        lemma_same_key_at(a, b, j);
        lemma_ascending_distinct(a, j, n);
    }
    if k < n {
        lemma_same_key_at(a, b, k);
        lemma_ascending_distinct(b, k, n);
    }
    if j > n {
        assert(key_less(b[n].kind, b[n].path, b[j].kind, b[j].path));
        if k > n {
            assert(key_less(a[n].kind, a[n].path, a[k].kind, a[k].path));
            lemma_key_less_transitive(
                a[n].kind,
                a[n].path,
                a[k].kind,
                a[k].path,
                b[j].kind,
                b[j].path,
            );
            lemma_key_less_irreflexive(a[n].kind, a[n].path);
        } else {
            lemma_key_less_irreflexive(a[n].kind, a[n].path);
        }
    }
}

/// Two ascending sequences with the same keys have the same length and the
/// same key at every index.
pub proof fn lemma_same_keys(a: Seq<GroupView>, b: Seq<GroupView>)
    requires
        ascending(a),
        ascending(b),
        keys_within(a, b),
        keys_within(b, a),
    ensures
        a.len() == b.len(),
        forall|i: int|
            0 <= i < a.len() ==> (#[trigger] a[i]).kind == b[i].kind && a[i].path == b[i].path,
{
    if a.len() < b.len() {
        let n = a.len() as int;
        let k = choose|k: int|
            0 <= k < a.len() && (#[trigger] a[k]).kind == b[n].kind && a[k].path == b[n].path;
        lemma_same_key_at(a, b, k);
        lemma_ascending_distinct(b, k, n);
    }
    if b.len() < a.len() {
        let n = b.len() as int;
        let k = choose|k: int|
            0 <= k < b.len() && (#[trigger] b[k]).kind == a[n].kind && b[k].path == a[n].path;
        lemma_same_key_at(a, b, k);
        lemma_ascending_distinct(a, k, n);
    }
    assert forall|i: int| 0 <= i < a.len() implies (#[trigger] a[i]).kind == b[i].kind
        && a[i].path == b[i].path by {
        lemma_same_key_at(a, b, i);
    }
}

/// The keys of a grouping are the keys that occur among the findings.
pub proof fn lemma_grouping_keys(findings: Seq<ProblemView>, groups: Seq<GroupView>)
    requires
        is_grouping(findings, groups),
    ensures
        ascending(groups),
        forall|i: int|
            0 <= i < groups.len() ==> occurs(
                findings,
                (#[trigger] groups[i]).kind,
                groups[i].path,
            ),
{
    assert forall|i: int| 0 <= i < groups.len() implies occurs(
        findings,
        (#[trigger] groups[i]).kind,
        groups[i].path,
    ) by {
        lemma_members_empty(findings, groups[i].kind, groups[i].path);
    }
}

/// A log has one grouping only.
pub proof fn lemma_grouping_unique(findings: Seq<ProblemView>, a: Seq<GroupView>, b: Seq<GroupView>)
    requires
        is_grouping(findings, a),
        is_grouping(findings, b),
    ensures
        a == b,
{
    lemma_grouping_keys(findings, a);
    lemma_grouping_keys(findings, b);
    assert(keys_within(a, b)) by {
        assert forall|i: int| 0 <= i < a.len() implies exists|j: int|
            0 <= j < b.len() && (#[trigger] b[j]).kind == (#[trigger] a[i]).kind && b[j].path
                == a[i].path by {
            let k = choose|k: int|
                0 <= k < findings.len() && (#[trigger] findings[k]).kind == a[i].kind
                    && findings[k].path == a[i].path;
            let j = choose|j: int|
                0 <= j < b.len() && (#[trigger] b[j]).kind == findings[k].kind && b[j].path
                    == findings[k].path;
            assert(b[j].kind == a[i].kind);
        }
    }
    assert(keys_within(b, a)) by {
        assert forall|i: int| 0 <= i < b.len() implies exists|j: int|
            0 <= j < a.len() && (#[trigger] a[j]).kind == (#[trigger] b[i]).kind && a[j].path
                == b[i].path by {
            let k = choose|k: int|
                0 <= k < findings.len() && (#[trigger] findings[k]).kind == b[i].kind
                    && findings[k].path == b[i].path;
            let j = choose|j: int|
                0 <= j < a.len() && (#[trigger] a[j]).kind == findings[k].kind && a[j].path
                    == findings[k].path;
            assert(a[j].kind == b[i].kind);
        }
    }
    lemma_same_keys(a, b);
    assert forall|i: int| 0 <= i < a.len() implies a[i] == b[i] by {
        assert(a[i].kind == b[i].kind && a[i].path == b[i].path);
        assert(a[i].problems == members(findings, a[i].kind, a[i].path));
        assert(b[i].problems == members(findings, b[i].kind, b[i].path));
    }
    assert(a =~= b);
}

/// How often a finding stands in a group is how often it stands in the log,
/// where it has the group's key, and never otherwise.
pub proof fn lemma_members_count(
    findings: Seq<ProblemView>,
    kind: KindView,
    path: Seq<char>,
    x: ProblemView,
)
    ensures
        members(findings, kind, path).to_multiset().count(x) == if x.kind == kind && x.path
            == path {
            findings.to_multiset().count(x)
        } else {
            0
        },
    decreases findings.len(),
{
    if findings.len() == 0 {
        assert(findings.to_multiset().len() == 0) by {
            findings.to_multiset_ensures();
        }
        assert(members(findings, kind, path).to_multiset().len() == 0) by {
            members(findings, kind, path).to_multiset_ensures();
        }
    } else {
        let rest = findings.drop_last();
        let last = findings.last();
        lemma_members_count(rest, kind, path, x);
        assert(findings =~= rest.push(last));
        rest.to_multiset_ensures();
        assert(findings.to_multiset() =~= rest.to_multiset().insert(last));
        members(rest, kind, path).to_multiset_ensures();
        if last.kind == kind && last.path == path {
            assert(members(findings, kind, path).to_multiset() =~= members(
                rest,
                kind,
                path,
            ).to_multiset().insert(last));
        }
    }
}

/// Two logs that hold the same findings, in whatever order, hold the same
/// findings under every key.
pub proof fn lemma_members_same(
    a: Seq<ProblemView>,
    b: Seq<ProblemView>,
    kind: KindView,
    path: Seq<char>,
)
    requires
        a.to_multiset() == b.to_multiset(),
    ensures
        members(a, kind, path).to_multiset() == members(b, kind, path).to_multiset(),
        members(a, kind, path).len() == members(b, kind, path).len(),
        occurs(a, kind, path) == occurs(b, kind, path),
{
    let ma = members(a, kind, path);
    let mb = members(b, kind, path);
    assert forall|x: ProblemView| ma.to_multiset().count(x) == mb.to_multiset().count(x) by {
        lemma_members_count(a, kind, path, x);
        lemma_members_count(b, kind, path, x);
    }
    assert(ma.to_multiset() =~= mb.to_multiset());
    ma.to_multiset_ensures();
    mb.to_multiset_ensures();
    lemma_members_empty(a, kind, path);
    lemma_members_empty(b, kind, path);
}

/// Every key of the grouping of a log is a key of the grouping of any log
/// that holds the same findings.
proof fn lemma_keys_follow_findings(
    a: Seq<ProblemView>,
    b: Seq<ProblemView>,
    ga: Seq<GroupView>,
    gb: Seq<GroupView>,
)
    requires
        a.to_multiset() == b.to_multiset(),
        is_grouping(a, ga),
        is_grouping(b, gb),
    ensures
        keys_within(ga, gb),
{
    assert forall|i: int| 0 <= i < ga.len() implies exists|j: int|
        0 <= j < gb.len() && (#[trigger] gb[j]).kind == (#[trigger] ga[i]).kind && gb[j].path
            == ga[i].path by {
        let kind = ga[i].kind;
        let path = ga[i].path;
        lemma_members_empty(a, kind, path);
        lemma_members_same(a, b, kind, path);
        assert(occurs(b, kind, path));
        lemma_group_of_occurring_key(b, gb, kind, path);
    }
}

/// A key that occurs in the log has its group.
proof fn lemma_group_of_occurring_key(
    findings: Seq<ProblemView>,
    groups: Seq<GroupView>,
    kind: KindView,
    path: Seq<char>,
)
    requires
        is_grouping(findings, groups),
        occurs(findings, kind, path),
    ensures
        exists|j: int|
            0 <= j < groups.len() && (#[trigger] groups[j]).kind == kind && groups[j].path == path,
{
    let k = choose|k: int|
        0 <= k < findings.len() && (#[trigger] findings[k]).kind == kind && findings[k].path
            == path;
    let j = choose|j: int|
        0 <= j < groups.len() && (#[trigger] groups[j]).kind == findings[k].kind && groups[j].path
            == findings[k].path;
    assert(groups[j].kind == kind && groups[j].path == path);
}

/// The groupings of two logs that hold the same findings, in whatever order,
/// have the same keys in the same order, and each group holds the same
/// findings in both.
pub proof fn lemma_grouping_ignores_order(
    a: Seq<ProblemView>,
    b: Seq<ProblemView>,
    ga: Seq<GroupView>,
    gb: Seq<GroupView>,
)
    requires
        a.to_multiset() == b.to_multiset(),
        is_grouping(a, ga),
        is_grouping(b, gb),
    ensures
        ga.len() == gb.len(),
        forall|i: int|
            0 <= i < ga.len() ==> (#[trigger] ga[i]).kind == gb[i].kind && ga[i].path == gb[i].path
                && ga[i].problems.to_multiset() == gb[i].problems.to_multiset()
                && ga[i].problems.len() == gb[i].problems.len(),
{
    lemma_grouping_keys(a, ga);
    lemma_grouping_keys(b, gb);
    lemma_keys_follow_findings(a, b, ga, gb);
    lemma_keys_follow_findings(b, a, gb, ga);
    lemma_same_keys(ga, gb);
    assert forall|i: int| 0 <= i < ga.len() implies (#[trigger] ga[i]).kind == gb[i].kind
        && ga[i].path == gb[i].path && ga[i].problems.to_multiset() == gb[i].problems.to_multiset()
        && ga[i].problems.len() == gb[i].problems.len() by {
        lemma_members_same(a, b, ga[i].kind, ga[i].path);
        assert(ga[i].problems == members(a, ga[i].kind, ga[i].path));
        assert(gb[i].problems == members(b, gb[i].kind, gb[i].path));
    }
}

/// Whether the key `(kind_a, path_a)` comes strictly before `(kind_b, path_b)`.
pub fn key_before(kind_a: &ProblemKind, path_a: &str, kind_b: &ProblemKind, path_b: &str) -> (r:
    bool)
    ensures
        r == key_less(kind_a@, path_a@, kind_b@, path_b@),
{
    kind_a.precedes(kind_b) || (kind_a.same_as(kind_b) && less(path_a, path_b))
}

/// Where a finding with the key `(kind, path)` belongs among ascending
/// `groups`: the index of the first group whose key does not come before
/// the key, or the number of groups where every key comes before it.
pub open spec fn slot(groups: Seq<GroupView>, kind: KindView, path: Seq<char>) -> int
    decreases groups.len(),
{
    if groups.len() == 0 {
        0
    } else {
        let before = slot(groups.drop_last(), kind, path);
        if before < groups.len() - 1 {
            before
        } else if key_less(groups.last().kind, groups.last().path, kind, path) {
            groups.len() as int
        } else {
            groups.len() - 1
        }
    }
}

/// `slot` is the least index of a group whose key does not come before the key.
pub proof fn lemma_slot(groups: Seq<GroupView>, kind: KindView, path: Seq<char>)
    ensures
        0 <= slot(groups, kind, path) <= groups.len(),
        forall|j: int|
            0 <= j < slot(groups, kind, path) ==> key_less(
                (#[trigger] groups[j]).kind,
                groups[j].path,
                kind,
                path,
            ),
        slot(groups, kind, path) < groups.len() ==> !key_less(
            groups[slot(groups, kind, path)].kind,
            groups[slot(groups, kind, path)].path,
            kind,
            path,
        ),
    decreases groups.len(),
{
    if groups.len() > 0 {
        lemma_slot(groups.drop_last(), kind, path);
        let before = slot(groups.drop_last(), kind, path);
        assert forall|j: int| 0 <= j < slot(groups, kind, path) implies key_less(
            (#[trigger] groups[j]).kind,
            groups[j].path,
            kind,
            path,
        ) by {
            if j < groups.len() - 1 {
                assert(groups[j] == groups.drop_last()[j]);
            }
        }
        if before < groups.len() - 1 {
            assert(groups[before] == groups.drop_last()[before]);
        }
    }
}

/// An index with the properties of `slot` is `slot`.
pub proof fn lemma_slot_unique(groups: Seq<GroupView>, kind: KindView, path: Seq<char>, i: int)
    requires
        0 <= i <= groups.len(),
        forall|j: int|
            0 <= j < i ==> key_less((#[trigger] groups[j]).kind, groups[j].path, kind, path),
        i < groups.len() ==> !key_less(groups[i].kind, groups[i].path, kind, path),
    ensures
        slot(groups, kind, path) == i,
{
    lemma_slot(groups, kind, path);
}

/// The groups after the finding `p` was put into them: it joins the group
/// of its key at the end, or forms a new group where its key belongs.
pub open spec fn placed(groups: Seq<GroupView>, p: ProblemView) -> Seq<GroupView> {
    let i = slot(groups, p.kind, p.path);
    if i < groups.len() && groups[i].kind == p.kind && groups[i].path == p.path {
        groups.update(i, GroupView { problems: groups[i].problems.push(p), ..groups[i] })
    } else {
        groups.insert(i, GroupView { kind: p.kind, path: p.path, problems: seq![p] })
    }
}

/// The grouping of `findings`, built by placing one finding after the other.
pub open spec fn grouped(findings: Seq<ProblemView>) -> Seq<GroupView>
    decreases findings.len(),
{
    if findings.len() == 0 {
        Seq::empty()
    } else {
        placed(grouped(findings.drop_last()), findings.last())
    }
}

/// Placing the next finding of the log into the grouping of the log so far
/// gives the grouping of the longer log.
pub proof fn lemma_placed(findings: Seq<ProblemView>, before: Seq<GroupView>, p: ProblemView)
    requires
        is_grouping(findings, before),
    ensures
        is_grouping(findings.push(p), placed(before, p)),
{
    let after_log = findings.push(p);
    let now = placed(before, p);
    let at = slot(before, p.kind, p.path);
    lemma_slot(before, p.kind, p.path);
    assert(after_log.drop_last() =~= findings);
    let found = at < before.len() && before[at].kind == p.kind && before[at].path == p.path;
    assert forall|j: int| 0 <= j < before.len() && j != at implies !((#[trigger] before[j]).kind
        == p.kind && before[j].path == p.path) by {
        if j < at {
            lemma_key_less_irreflexive(p.kind, p.path);
        } else {
            if found {
                lemma_key_less_irreflexive(p.kind, p.path);
                assert(key_less(before[at].kind, before[at].path, before[j].kind, before[j].path));
            } else {
                lemma_key_less_total(before[at].kind, before[at].path, p.kind, p.path);
                if before[j].kind == p.kind && before[j].path == p.path {
                    lemma_key_less_transitive(
                        p.kind,
                        p.path,
                        before[at].kind,
                        before[at].path,
                        before[j].kind,
                        before[j].path,
                    );
                    lemma_key_less_irreflexive(p.kind, p.path);
                }
            }
        }
    }
    if found {
        assert forall|j: int| 0 <= j < now.len() implies (#[trigger] now[j]).kind == before[j].kind
            && now[j].path == before[j].path && now[j].problems == members(
            after_log,
            now[j].kind,
            now[j].path,
        ) && now[j].problems.len() > 0 by {
            if j == at {
                assert(now[j].problems == before[j].problems.push(p));
            } else {
                assert(now[j] == before[j]);
            }
        }
        assert forall|k: int| 0 <= k < after_log.len() implies has_group(
            now,
            (#[trigger] after_log[k]).kind,
            after_log[k].path,
        ) by {
            if k < findings.len() {
                assert(after_log[k] == findings[k]);
                assert(has_group(before, findings[k].kind, findings[k].path));
                let j = choose|j: int|
                    0 <= j < before.len() && (#[trigger] before[j]).kind == findings[k].kind
                        && before[j].path == findings[k].path;
                assert(now[j].kind == before[j].kind);
            } else {
                assert(now[at].kind == p.kind);
            }
        }
        assert forall|a: int, b: int| 0 <= a < b < now.len() implies key_less(
            (#[trigger] now[a]).kind,
            now[a].path,
            (#[trigger] now[b]).kind,
            now[b].path,
        ) by {
            assert(key_less(before[a].kind, before[a].path, before[b].kind, before[b].path));
        }
    } else {
        let g = GroupView { kind: p.kind, path: p.path, problems: seq![p] };
        assert(!occurs(findings, p.kind, p.path)) by {
            if occurs(findings, p.kind, p.path) {
                let k = choose|k: int|
                    0 <= k < findings.len() && (#[trigger] findings[k]).kind == p.kind
                        && findings[k].path == p.path;
                assert(has_group(before, findings[k].kind, findings[k].path));
                let j = choose|j: int|
                    0 <= j < before.len() && (#[trigger] before[j]).kind == findings[k].kind
                        && before[j].path == findings[k].path;
                assert(before[j].kind == p.kind && before[j].path == p.path);
                if j == at {
                    assert(false);
                }
            }
        }
        lemma_members_empty(findings, p.kind, p.path);
        assert(members(findings, p.kind, p.path) =~= Seq::empty());
        assert(members(after_log, p.kind, p.path) =~= seq![p]);
        assert forall|j: int| 0 <= j < now.len() implies (#[trigger] now[j]).problems == members(
            after_log,
            now[j].kind,
            now[j].path,
        ) && now[j].problems.len() > 0 by {
            if j < at {
                assert(now[j] == before[j]);
            } else if j > at {
                assert(now[j] == before[j - 1]);
            }
        }
        assert forall|k: int| 0 <= k < after_log.len() implies has_group(
            now,
            (#[trigger] after_log[k]).kind,
            after_log[k].path,
        ) by {
            if k < findings.len() {
                assert(after_log[k] == findings[k]);
                assert(has_group(before, findings[k].kind, findings[k].path));
                let j = choose|j: int|
                    0 <= j < before.len() && (#[trigger] before[j]).kind == findings[k].kind
                        && before[j].path == findings[k].path;
                if j < at {
                    assert(now[j] == before[j]);
                } else {
                    assert(now[j + 1] == before[j]);
                }
            } else {
                assert(now[at] == g);
            }
        }
        assert forall|a: int, b: int| 0 <= a < b < now.len() implies key_less(
            (#[trigger] now[a]).kind,
            now[a].path,
            (#[trigger] now[b]).kind,
            now[b].path,
        ) by {
            let x = if a < at {
                a
            } else {
                a - 1
            };
            let y = if b < at {
                b
            } else {
                b - 1
            };
            if a != at {
                assert(now[a] == before[x]);
            }
            if b != at {
                assert(now[b] == before[y]);
            }
            if a != at && b != at {
                assert(key_less(before[x].kind, before[x].path, before[y].kind, before[y].path));
            } else if a == at {
                lemma_key_less_total(before[at].kind, before[at].path, p.kind, p.path);
                if y > at {
                    lemma_key_less_transitive(
                        p.kind,
                        p.path,
                        before[at].kind,
                        before[at].path,
                        before[y].kind,
                        before[y].path,
                    );
                }
            }
        }
    }
}

/// Every log has its grouping: `grouped` is it.
pub proof fn lemma_grouped(findings: Seq<ProblemView>)
    ensures
        is_grouping(findings, grouped(findings)),
    decreases findings.len(),
{
    if findings.len() > 0 {
        lemma_grouped(findings.drop_last());
        lemma_placed(findings.drop_last(), grouped(findings.drop_last()), findings.last());
        assert(findings.drop_last().push(findings.last()) =~= findings);
    }
}

/// Puts `problem` into `groups`, whose keys ascend.
fn place(groups: &mut Vec<ProblemGroup>, problem: &Problem)
    ensures
        groups_view(final(groups)@) == placed(groups_view(old(groups)@), problem@),
{
    let ghost before = groups_view(groups@);
    let ghost p = problem@;
    let mut i: usize = 0;
    while i < groups.len() && key_before(
        &groups[i].kind,
        groups[i].path.as_str(),
        &problem.kind,
        problem.path.as_str(),
    )
        invariant
            i <= groups@.len(),
            groups_view(groups@) == before,
            p == problem@,
            *groups == *old(groups),
            forall|j: int|
                0 <= j < i ==> key_less((#[trigger] before[j]).kind, before[j].path, p.kind, p.path),
        decreases groups@.len() - i,
    {
        assert(before[i as int] == groups@[i as int]@);
        i += 1;
    }
    proof {
        if i < groups@.len() {
            assert(before[i as int] == groups@[i as int]@);
        }
        lemma_slot_unique(before, p.kind, p.path, i as int);
    }
    let found = i < groups.len() && groups[i].kind.same_as(&problem.kind) && equal(
        groups[i].path.as_str(),
        problem.path.as_str(),
    );
    if found {
        groups[i].problems.push(problem.clone());
        proof {
            let at = i as int;
            assert(problems_view(old(groups)@[at].problems@.push(*problem)) =~= problems_view(
                old(groups)@[at].problems@,
            ).push(p));
            assert(forall|j: int|
                0 <= j < before.len() && j != at ==> groups@[j] == old(groups)@[j]);
            assert(groups_view(groups@) =~= placed(before, p));
        }
    } else {
        let mut problems: Vec<Problem> = Vec::new();
        problems.push(problem.clone());
        assert(problems_view(problems@) =~= seq![p]);
        let group = ProblemGroup {
            kind: problem.kind.clone(),
            path: problem.path.clone(),
            problems,
        };
        groups.insert(i, group);
        assert(groups_view(groups@) =~= placed(before, p));
    }
}

/// Groups `problems` by kind and path. The groups ascend by kind (in
/// declared order, then by the type name carried) and then by path; within a
/// group the findings keep the order of the log.
pub fn group_problems(problems: &Vec<Problem>) -> (r: Vec<ProblemGroup>)
    ensures
        is_grouping(problems_view(problems@), groups_view(r@)),
        groups_view(r@) == grouped(problems_view(problems@)),
{
    let mut groups: Vec<ProblemGroup> = Vec::new();
    let mut n: usize = 0;
    let ghost all = problems_view(problems@);
    assert(groups_view(groups@) =~= Seq::empty());
    assert(all.subrange(0, 0) =~= Seq::empty());
    while n < problems.len()
        invariant
            n <= problems@.len(),
            all == problems_view(problems@),
            groups_view(groups@) == grouped(all.subrange(0, n as int)),
        decreases problems@.len() - n,
    {
        place(&mut groups, &problems[n]);
        assert(all.subrange(0, n + 1).drop_last() =~= all.subrange(0, n as int));
        assert(all.subrange(0, n + 1).last() == problems@[n as int]@);
        n += 1;
    }
    assert(all.subrange(0, n as int) =~= all);
    proof {
        lemma_grouped(all);
    }
    groups
}

} // verus!
