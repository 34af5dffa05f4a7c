//! The report: one summary line for each group of findings, and the
//! detailed listing of every group.

use crate::grouping::{
    grouped, groups_view, is_grouping, lemma_grouped, lemma_grouping_ignores_order, GroupView,
    ProblemGroup,
};
use crate::storage::{problems_view, texts_view, Storage};
use crate::text::{
    concat3, concat4, decimal, decimal_text, lemma_text_less_irreflexive, lemma_text_less_total,
    lemma_text_less_transitive, less, text_less,
};
use crate::visit::{Problem, ProblemView};
use vstd::prelude::*;

verus! {

/// How many details of one group the detailed report lists.
pub const DETAIL_LIMIT: usize = 100;

/// The line that tells the reader of the summary where the details are.
pub const DETAIL_NOTICE: &'static str = "\nAlle einzelnen Fälle finden sich in report.txt";

/// The least detail among `problems` in lexicographic order; the empty text
/// where there is no finding.
pub open spec fn least_detail(problems: Seq<ProblemView>) -> Seq<char>
    decreases problems.len(),
{
    if problems.len() == 0 {
        Seq::empty()
    } else if problems.len() == 1 {
        problems[0].detail
    } else {
        let rest = least_detail(problems.drop_last());
        if text_less(problems.last().detail, rest) {
            problems.last().detail
        } else {
            rest
        }
    }
}

/// The summary line of a group: its message, the number of its findings and
/// the least of their details as an example.
pub open spec fn summary_line(g: GroupView) -> Seq<char> {
    g.kind.message(g.path) + " ("@ + decimal(g.problems.len()) + " cases). Example: "@
        + least_detail(g.problems)
}

/// The first line of the summary.
pub open spec fn summary_header(is_final: bool) -> Seq<char> {
    if is_final {
        "=== Validierungsreport: Zusammenfassung ==="@
    } else {
        "=== ZWISCHENSTAND Zusammenfassung Validierungsreport ==="@
    }
}

/// The summary: the header, then one line for each group.
pub open spec fn summary_report(groups: Seq<GroupView>, is_final: bool) -> Seq<Seq<char>> {
    seq![summary_header(is_final)] + groups.map_values(|g: GroupView| summary_line(g))
}

/// The first line of a group in the detailed report.
pub open spec fn group_header(g: GroupView) -> Seq<char> {
    "== "@ + g.kind.message(g.path) + " ("@ + decimal(g.problems.len()) + " Fälle) =="@
}

/// The line that says how many details of a group were left out.
pub open spec fn truncation_line(left_out: nat) -> Seq<char> {
    "... and "@ + decimal(left_out) + " more cases"@
}

/// How many details of a group with `count` findings are listed.
pub open spec fn listed(count: nat) -> nat {
    if count > DETAIL_LIMIT {
        DETAIL_LIMIT as nat
    } else {
        count
    }
}

/// The lines of one group in the detailed report: the header, the details of
/// its first findings up to the limit, and a closing line where some were
/// left out.
pub open spec fn detail_block(g: GroupView) -> Seq<Seq<char>> {
    let shown = Seq::new(listed(g.problems.len()), |i: int| g.problems[i].detail);
    let head = seq![group_header(g)] + shown;
    if g.problems.len() > DETAIL_LIMIT {
        head.push(truncation_line((g.problems.len() - DETAIL_LIMIT) as nat))
    } else {
        head
    }
}

/// The blocks of the first `n` groups, one after the other.
pub open spec fn detail_blocks(groups: Seq<GroupView>, n: nat) -> Seq<Seq<char>>
    decreases n,
{
    if n == 0 || n > groups.len() {
        Seq::empty()
    } else {
        detail_blocks(groups, (n - 1) as nat) + detail_block(groups[n - 1])
    }
}

/// The first line of the detailed report.
pub open spec fn detail_title() -> Seq<char> {
    "=== Detailreport: Alle Einzelfälle ==="@
}

/// The detailed report: the title, then the block of each group.
pub open spec fn detail_report(groups: Seq<GroupView>) -> Seq<Seq<char>> {
    seq![detail_title()] + detail_blocks(groups, groups.len())
}

/// The example of a group is the least of its details: it is the detail of
/// one of the findings, and no finding has a detail that comes before it.
pub proof fn lemma_least_detail(problems: Seq<ProblemView>)
    requires
        problems.len() > 0,
    ensures
        exists|i: int|
            0 <= i < problems.len() && (#[trigger] problems[i]).detail == least_detail(problems),
        forall|j: int|
            0 <= j < problems.len() ==> !text_less(
                (#[trigger] problems[j]).detail,
                least_detail(problems),
            ),
    decreases problems.len(),
{
    if problems.len() == 1 {
        lemma_text_less_irreflexive(problems[0].detail);
        assert(problems[0].detail == least_detail(problems));
    } else {
        let rest = problems.drop_last();
        let last = problems.last();
        lemma_least_detail(rest);
        let i = choose|i: int| 0 <= i < rest.len() && (#[trigger] rest[i]).detail == least_detail(rest);
        assert(problems[i] == rest[i]);
        assert(problems[problems.len() - 1] == last);
        lemma_text_less_irreflexive(last.detail);
        assert forall|j: int| 0 <= j < problems.len() implies !text_less(
            (#[trigger] problems[j]).detail,
            least_detail(problems),
        ) by {
            if j < rest.len() {
                assert(problems[j] == rest[j]);
                if text_less(last.detail, least_detail(rest)) && text_less(
                    rest[j].detail,
                    last.detail,
                ) {
                    lemma_text_less_transitive(rest[j].detail, last.detail, least_detail(rest));
                }
            }
        }
    }
}

/// The example does not depend on the order of the findings.
pub proof fn lemma_least_detail_ignores_order(p: Seq<ProblemView>, q: Seq<ProblemView>)
    requires
        p.to_multiset() == q.to_multiset(),
    ensures
        least_detail(p) == least_detail(q),
{
    p.to_multiset_ensures();
    q.to_multiset_ensures();
    if p.len() > 0 {
        lemma_least_detail(p);
        lemma_least_detail(q);
        let i = choose|i: int| 0 <= i < p.len() && (#[trigger] p[i]).detail == least_detail(p);
        let j = choose|j: int| 0 <= j < q.len() && (#[trigger] q[j]).detail == least_detail(q);
        assert(p.contains(p[i]));
        assert(q.contains(q[j]));
        assert(p.to_multiset().count(p[i]) > 0);
        assert(q.to_multiset().count(q[j]) > 0);
        assert(q.contains(p[i]));
        assert(p.contains(q[j]));
        let k = choose|k: int| 0 <= k < q.len() && q[k] == p[i];
        let l = choose|l: int| 0 <= l < p.len() && p[l] == q[j];
        assert(!text_less(q[k].detail, least_detail(q)));
        assert(!text_less(p[l].detail, least_detail(p)));
        lemma_text_less_total(least_detail(p), least_detail(q));
    }
}

/// The summary does not depend on the order in which the findings were
/// made: two logs that hold the same findings, in whatever order, have the
/// same summary, line by line.
pub proof fn lemma_summary_ignores_order(
    a: Seq<ProblemView>,
    b: Seq<ProblemView>,
    is_final: bool,
)
    requires
        a.to_multiset() == b.to_multiset(),
    ensures
        summary_report(grouped(a), is_final) == summary_report(grouped(b), is_final),
{
    let ga = grouped(a);
    let gb = grouped(b);
    lemma_grouped(a);
    lemma_grouped(b);
    lemma_grouping_ignores_order(a, b, ga, gb);
    assert forall|i: int| 0 <= i < ga.len() implies summary_line(ga[i]) == summary_line(gb[i]) by {
        lemma_least_detail_ignores_order(ga[i].problems, gb[i].problems);
    }
    assert(ga.map_values(|g: GroupView| summary_line(g)) =~= gb.map_values(
        |g: GroupView| summary_line(g),
    ));
}

/// The least detail among `problems`, as `least_detail` defines it.
pub fn example_detail(problems: &Vec<Problem>) -> (r: &str)
    ensures
        r@ == least_detail(problems_view(problems@)),
{
    if problems.len() == 0 {
        proof {
            reveal_strlit("");
        }
        assert(""@ =~= Seq::<char>::empty());
        return "";
    }
    let mut best: usize = 0;
    let mut i: usize = 1;
    let ghost all = problems_view(problems@);
    assert(all.subrange(0, 1)[0] == all[0]);
    while i < problems.len()
        invariant
            1 <= i <= problems@.len(),
            best < i,
            all == problems_view(problems@),
            problems@[best as int].detail@ == least_detail(all.subrange(0, i as int)),
        decreases problems@.len() - i,
    {
        assert(all.subrange(0, i + 1).drop_last() =~= all.subrange(0, i as int));
        assert(all.subrange(0, i + 1).last() == all[i as int]);
        if less(problems[i].detail.as_str(), problems[best].detail.as_str()) {
            best = i;
        }
        i += 1;
    }
    assert(all.subrange(0, i as int) =~= all);
    problems[best].detail.as_str()
}

/// The summary line of `group`.
pub fn group_summary(group: &ProblemGroup) -> (r: String)
    ensures
        r@ == summary_line(group@),
{
    let message = group.kind.message(group.path.as_str());
    let count = decimal_text(group.problems.len());
    let mut r = concat4(message.as_str(), " (", count.as_str(), " cases). Example: ");
    r.append(example_detail(&group.problems));
    r
}

/// The lines of the summary for the findings in `storage`: a header, which
/// says whether the run is over, then one line for each group of findings,
/// the groups in ascending order.
pub fn problem_report(storage: &Storage, is_final: bool) -> (r: Vec<String>)
    ensures
        texts_view(r@) == summary_report(grouped(storage@.problems), is_final),
        is_grouping(storage@.problems, grouped(storage@.problems)),
{
    let groups = storage.problems_grouped();
    let mut lines: Vec<String> = Vec::new();
    if is_final {
        lines.push(String::from_str("=== Validierungsreport: Zusammenfassung ==="));
    } else {
        lines.push(String::from_str("=== ZWISCHENSTAND Zusammenfassung Validierungsreport ==="));
    }
    let ghost views = groups_view(groups@);
    let mut i: usize = 0;
    assert(texts_view(lines@) =~= seq![summary_header(is_final)] + views.subrange(
        0,
        0,
    ).map_values(|g: GroupView| summary_line(g)));
    while i < groups.len()
        invariant
            i <= groups@.len(),
            views == groups_view(groups@),
            texts_view(lines@) == seq![summary_header(is_final)] + views.subrange(
                0,
                i as int,
            ).map_values(|g: GroupView| summary_line(g)),
        decreases groups@.len() - i,
    {
        let line = group_summary(&groups[i]);
        let ghost before = lines@;
        lines.push(line);
        assert(texts_view(lines@) =~= seq![summary_header(is_final)] + views.subrange(
            0,
            i + 1,
        ).map_values(|g: GroupView| summary_line(g))) by {
            assert(texts_view(lines@) =~= texts_view(before).push(line@));
            assert(views.subrange(0, i + 1) =~= views.subrange(0, i as int).push(views[i as int]));
        }
        i += 1;
    }
    assert(views.subrange(0, i as int) =~= views);
    lines
}

/// The lines of `group` in the detailed report.
pub fn group_details(group: &ProblemGroup) -> (r: Vec<String>)
    ensures
        texts_view(r@) == detail_block(group@),
{
    let message = group.kind.message(group.path.as_str());
    let count = decimal_text(group.problems.len());
    let mut header = concat4("== ", message.as_str(), " (", count.as_str());
    header.append(" Fälle) ==");
    let mut lines: Vec<String> = Vec::new();
    lines.push(header);
    let ghost g = group@;
    let shown = if group.problems.len() > DETAIL_LIMIT {
        DETAIL_LIMIT
    } else {
        group.problems.len()
    };
    let mut i: usize = 0;
    assert(texts_view(lines@) =~= seq![group_header(g)] + Seq::new(
        0,
        |k: int| g.problems[k].detail,
    ));
    while i < shown
        invariant
            i <= shown,
            shown == listed(g.problems.len()),
            shown <= group.problems@.len(),
            g == group@,
            texts_view(lines@) == seq![group_header(g)] + Seq::new(
                i as nat,
                |k: int| g.problems[k].detail,
            ),
        decreases shown - i,
    {
        let ghost before = lines@;
        let detail = group.problems[i].detail.clone();
        lines.push(detail);
        assert(texts_view(lines@) =~= seq![group_header(g)] + Seq::new(
            (i + 1) as nat,
            |k: int| g.problems[k].detail,
        )) by {
            assert(texts_view(lines@) =~= texts_view(before).push(detail@));
        }
        i += 1;
    }
    if group.problems.len() > DETAIL_LIMIT {
        let left_out = decimal_text(group.problems.len() - DETAIL_LIMIT);
        let ghost before = lines@;
        let line = concat3("... and ", left_out.as_str(), " more cases");
        lines.push(line);
        assert(texts_view(lines@) =~= texts_view(before).push(line@));
    }
    lines
}

/// The lines of the detailed report for the findings in `storage`: a title,
/// then for each group its header, the details of its first findings up to
/// the limit, and a closing line where some were left out.
pub fn write_detail_report(storage: &Storage) -> (r: Vec<String>)
    ensures
        texts_view(r@) == detail_report(grouped(storage@.problems)),
        is_grouping(storage@.problems, grouped(storage@.problems)),
{
    let groups = storage.problems_grouped();
    let mut lines: Vec<String> = Vec::new();
    lines.push(String::from_str("=== Detailreport: Alle Einzelfälle ==="));
    let ghost views = groups_view(groups@);
    let mut i: usize = 0;
    assert(texts_view(lines@) =~= seq![detail_title()] + detail_blocks(views, 0));
    while i < groups.len()
        invariant
            i <= groups@.len(),
            views == groups_view(groups@),
            texts_view(lines@) == seq![detail_title()] + detail_blocks(views, i as nat),
        decreases groups@.len() - i,
    {
        let mut block = group_details(&groups[i]);
        let ghost before = lines@;
        let ghost added = block@;
        lines.append(&mut block);
        assert(texts_view(lines@) =~= seq![detail_title()] + detail_blocks(views, (i + 1) as nat))
            by {
            assert(texts_view(before + added) =~= texts_view(before) + texts_view(added));
            assert(views[i as int] == groups@[i as int]@);
        }
        i += 1;
    }
    lines
}

} // verus!
