//! Two eval runs side by side.

use crate::api::evals::{CaseModel, EvalCaseSummary};
use crate::grouping::{double_views, group_by2, grouping2, DoubleGroup};
use crate::text::{opt_text, texts};
use vstd::prelude::*;

verus! {

/// A score of a case, and the trace it was given for.
pub struct EntryModel {
    pub case_id: Seq<char>,
    pub metric: Seq<char>,
    pub value: u64,
    pub trace_id: Option<Seq<char>>,
}

#[derive(Debug)]
pub struct Entry {
    pub case_id: String,
    pub metric: String,
    pub value: u64,
    pub trace_id: Option<String>,
}

impl View for Entry {
    type V = EntryModel;

    open spec fn view(&self) -> EntryModel {
        EntryModel {
            case_id: self.case_id@,
            metric: self.metric@,
            value: self.value,
            trace_id: opt_text(self.trace_id),
        }
    }
}

pub open spec fn entry_views(v: Seq<Entry>) -> Seq<EntryModel> {
    v.map_values(|e: Entry| e@)
}

pub open spec fn case_entries(c: CaseModel) -> Seq<EntryModel> {
    c.scores.map_values(
        |s: (Seq<char>, u64)|
            EntryModel { case_id: c.case_id, metric: s.0, value: s.1, trace_id: c.trace_id },
    )
}

/// The scores of a run, case by case.
pub open spec fn entries_of(cases: Seq<CaseModel>) -> Seq<EntryModel>
    decreases cases.len(),
{
    if cases.len() == 0 {
        Seq::empty()
    } else {
        entries_of(cases.drop_last()) + case_entries(cases.last())
    }
}

/// The scores of a run, by case and metric.
pub fn cases_by_metric(cases: &Vec<EvalCaseSummary>) -> (r: Vec<Entry>)
    ensures
        entry_views(r@) == entries_of(crate::api::evals::case_views(cases@)),
{
    let ghost all = crate::api::evals::case_views(cases@);
    let mut out: Vec<Entry> = Vec::new();
    let mut i: usize = 0;
    assert(all.take(0) =~= Seq::<CaseModel>::empty());
    assert(entry_views(out@) =~= Seq::<EntryModel>::empty());
    while i < cases.len()
        invariant
            i <= cases@.len(),
            all == crate::api::evals::case_views(cases@),
            entry_views(out@) == entries_of(all.take(i as int)),
        decreases cases@.len() - i,
    {
        let c = &cases[i];
        let ghost start = entry_views(out@);
        let ghost added = case_entries(c@);
        let mut j: usize = 0;
        assert(start + added.take(0) =~= start);
        while j < c.scores.len()
            invariant
                j <= c.scores@.len(),
                added == case_entries(c@),
                entry_views(out@) == start + added.take(j as int),
            decreases c.scores@.len() - j,
        {
            let ghost before = out@;
            let trace_id = match &c.trace_id {
                Some(t) => Some(t.clone()),
                None => None,
            };
            let e = Entry {
                case_id: c.case_id.clone(),
                metric: c.scores[j].0.clone(),
                value: c.scores[j].1,
                trace_id,
            };
            assert(e@ == added[j as int]);
            out.push(e);
            assert(entry_views(out@) =~= entry_views(before).push(e@));
            j = j + 1;
            assert(entry_views(out@) =~= start + added.take(j as int));
        }
        proof {
            assert(added.take(c.scores@.len() as int) =~= added);
            assert(all.take(i as int + 1).drop_last() =~= all.take(i as int));
            assert(all.take(i as int + 1).last() == c@);
        }
        i = i + 1;
    }
    assert(all.take(cases@.len() as int) =~= all);
    out
}

/// One case and metric in two runs: its position among the scores of each,
/// where it has one.
#[derive(Debug)]
pub struct EvalCompareCase {
    pub case_id: String,
    pub metric: String,
    pub current: Option<usize>,
    pub baseline: Option<usize>,
}

pub struct CompareModel {
    pub case_id: Seq<char>,
    pub metric: Seq<char>,
    pub current: Option<int>,
    pub baseline: Option<int>,
}

impl View for EvalCompareCase {
    type V = CompareModel;

    open spec fn view(&self) -> CompareModel {
        CompareModel {
            case_id: self.case_id@,
            metric: self.metric@,
            current: match self.current {
                Some(i) => Some(i as int),
                None => None,
            },
            baseline: match self.baseline {
                Some(i) => Some(i as int),
                None => None,
            },
        }
    }
}

pub open spec fn compare_views(v: Seq<EvalCompareCase>) -> Seq<CompareModel> {
    v.map_values(|c: EvalCompareCase| c@)
}

/// One line of a comparison, given the positions of a case and metric among the
/// scores of both runs, the current ones first.
pub open spec fn compared(
    case_id: Seq<char>,
    metric: Seq<char>,
    members: Seq<int>,
    n: int,
) -> CompareModel {
    CompareModel {
        case_id,
        metric,
        current: if members[0] < n {
            Some(members[0])
        } else {
            None
        },
        baseline: if members.last() >= n {
            Some(members.last() - n)
        } else {
            None
        },
    }
}

pub open spec fn compared_case(
    case_id: Seq<char>,
    groups: Seq<(Seq<char>, Seq<int>)>,
    n: int,
) -> Seq<CompareModel> {
    groups.map_values(|h: (Seq<char>, Seq<int>)| compared(case_id, h.0, h.1, n))
}

pub open spec fn compared_cases(
    groups: Seq<(Seq<char>, Seq<(Seq<char>, Seq<int>)>)>,
    n: int,
) -> Seq<CompareModel>
    decreases groups.len(),
{
    if groups.len() == 0 {
        Seq::empty()
    } else {
        compared_cases(groups.drop_last(), n) + compared_case(
            groups.last().0,
            groups.last().1,
            n,
        )
    }
}

pub open spec fn entry_cases(v: Seq<EntryModel>) -> Seq<Seq<char>> {
    v.map_values(|e: EntryModel| e.case_id)
}

pub open spec fn entry_metrics(v: Seq<EntryModel>) -> Seq<Seq<char>> {
    v.map_values(|e: EntryModel| e.metric)
}

/// Every case and metric that is scored in one of two runs, in order, with its
/// place in each.
pub open spec fn comparison(current: Seq<EntryModel>, baseline: Seq<EntryModel>) -> Seq<
    CompareModel,
> {
    let all = current + baseline;
    compared_cases(grouping2(entry_cases(all), entry_metrics(all)), current.len() as int)
}

fn push_keys(entries: &Vec<Entry>, cases: &mut Vec<String>, metrics: &mut Vec<String>)
    ensures
        texts(final(cases)@) == texts(old(cases)@) + entry_cases(entry_views(entries@)),
        texts(final(metrics)@) == texts(old(metrics)@) + entry_metrics(entry_views(entries@)),
        final(cases)@.len() == old(cases)@.len() + entries@.len(),
        final(metrics)@.len() == old(metrics)@.len() + entries@.len(),
{
    let ghost all = entry_views(entries@);
    let ghost c0 = texts(cases@);
    let ghost m0 = texts(metrics@);
    let ghost cn = cases@.len();
    let ghost mn = metrics@.len();
    let mut i: usize = 0;
    assert(c0 + entry_cases(all).take(0) =~= c0);
    assert(m0 + entry_metrics(all).take(0) =~= m0);
    while i < entries.len()
        invariant
            i <= entries@.len(),
            all == entry_views(entries@),
            cases@.len() == cn + i,
            metrics@.len() == mn + i,
            texts(cases@) == c0 + entry_cases(all).take(i as int),
            texts(metrics@) == m0 + entry_metrics(all).take(i as int),
        decreases entries@.len() - i,
    {
        let ghost cb = cases@;
        let ghost mb = metrics@;
        assert(all[i as int] == entries@[i as int]@);
        cases.push(entries[i].case_id.clone());
        metrics.push(entries[i].metric.clone());
        assert(texts(cases@) =~= texts(cb).push(entries@[i as int].case_id@));
        assert(texts(metrics@) =~= texts(mb).push(entries@[i as int].metric@));
        i = i + 1;
        assert(texts(cases@) =~= c0 + entry_cases(all).take(i as int));
        assert(texts(metrics@) =~= m0 + entry_metrics(all).take(i as int));
    }
    assert(entry_cases(all).take(entries@.len() as int) =~= entry_cases(all));
    assert(entry_metrics(all).take(entries@.len() as int) =~= entry_metrics(all));
}

fn compare_case(group: &DoubleGroup, n: usize, out: &mut Vec<EvalCompareCase>)
    requires
        forall|h: int|
            0 <= h < group.groups@.len() ==> (#[trigger] group.groups@[h]).members@.len() > 0,
    ensures
        compare_views(final(out)@) == compare_views(old(out)@) + compared_case(
            group@.0,
            group@.1,
            n as int,
        ),
{
    let ghost start = compare_views(out@);
    let ghost added = compared_case(group@.0, group@.1, n as int);
    let mut h: usize = 0;
    assert(start + added.take(0) =~= start);
    while h < group.groups.len()
        invariant
            h <= group.groups@.len(),
            forall|h: int|
                0 <= h < group.groups@.len() ==> (#[trigger] group.groups@[h]).members@.len() > 0,
            added == compared_case(group@.0, group@.1, n as int),
            compare_views(out@) == start + added.take(h as int),
        decreases group.groups@.len() - h,
    {
        let ghost before = out@;
        let g = &group.groups[h];
        assert(group@.1[h as int] == g@);
        let first: usize = g.members[0];
        let last: usize = g.members[g.members.len() - 1];
        assert(g@.1[0] == first as int);
        assert(g@.1.last() == last as int);
        let c = EvalCompareCase {
            case_id: group.key.clone(),
            metric: g.key.clone(),
            current: if first < n {
                Some(first)
            } else {
                None
            },
            baseline: if last >= n {
                Some(last - n)
            } else {
                None
            },
        };
        assert(c@ == added[h as int]);
        out.push(c);
        assert(compare_views(out@) =~= compare_views(before).push(c@));
        h = h + 1;
        assert(compare_views(out@) =~= start + added.take(h as int));
    }
    assert(added.take(group.groups@.len() as int) =~= added);
}

/// Compare the scores of two runs.
pub fn compare(current: &Vec<Entry>, baseline: &Vec<Entry>) -> (r: Vec<EvalCompareCase>)
    ensures
        compare_views(r@) == comparison(entry_views(current@), entry_views(baseline@)),
{
    let ghost all = entry_views(current@) + entry_views(baseline@);
    let mut cases: Vec<String> = Vec::new();
    let mut metrics: Vec<String> = Vec::new();
    assert(texts(cases@) =~= Seq::<Seq<char>>::empty());
    assert(texts(metrics@) =~= Seq::<Seq<char>>::empty());
    push_keys(current, &mut cases, &mut metrics);
    push_keys(baseline, &mut cases, &mut metrics);
    assert(texts(cases@) =~= entry_cases(all));
    assert(texts(metrics@) =~= entry_metrics(all));
    let groups = group_by2(&cases, &metrics);
    let n: usize = current.len();
    let ghost found = double_views(groups@);
    let mut out: Vec<EvalCompareCase> = Vec::new();
    let mut g: usize = 0;
    assert(found.take(0) =~= Seq::<(Seq<char>, Seq<(Seq<char>, Seq<int>)>)>::empty());
    assert(compare_views(out@) =~= Seq::<CompareModel>::empty());
    while g < groups.len()
        invariant
            g <= groups@.len(),
            found == double_views(groups@),
            forall|g: int, h: int|
                0 <= g < groups@.len() && 0 <= h < groups@[g].groups@.len() ==> (
                #[trigger] groups@[g].groups@[h]).members@.len() > 0,
            compare_views(out@) == compared_cases(found.take(g as int), n as int),
        decreases groups@.len() - g,
    {
        compare_case(&groups[g], n, &mut out);
        assert(found.take(g as int + 1).drop_last() =~= found.take(g as int));
        assert(found.take(g as int + 1).last() == groups@[g as int]@);
        g = g + 1;
    }
    assert(found.take(groups@.len() as int) =~= found);
    out
}

// ── Laws ────────────────────────────────────────────────────────────

/// A comparison sets the score that a case has now beside the one that it had: each
/// side is of that case and that metric, the one from the current run and the other
/// from the baseline.
pub proof fn both_sides_are_of_the_case(
    current: Seq<EntryModel>,
    baseline: Seq<EntryModel>,
    c: int,
)
    requires
        0 <= c < comparison(current, baseline).len(),
    ensures
        ({
            let r = comparison(current, baseline)[c];
            &&& r.current is Some || r.baseline is Some
            &&& r.current matches Some(i) ==> 0 <= i < current.len() && current[i].case_id
                == r.case_id && current[i].metric == r.metric
            &&& r.baseline matches Some(i) ==> 0 <= i < baseline.len() && baseline[i].case_id
                == r.case_id && baseline[i].metric == r.metric
            &&& r.current is None ==> forall|i: int|
                0 <= i < current.len() ==> (#[trigger] current[i]).case_id != r.case_id
                    || current[i].metric != r.metric
            &&& r.baseline is None ==> forall|i: int|
                0 <= i < baseline.len() ==> (#[trigger] baseline[i]).case_id != r.case_id
                    || baseline[i].metric != r.metric
        }),
{
    let all = current + baseline;
    let n = current.len() as int;
    let (firsts, seconds) = (entry_cases(all), entry_metrics(all));
    let groups = grouping2(firsts, seconds);
    let (a, b) = comparison_comes_from(groups, n, c);
    let members = groups[a].1[b].1;
    let r = comparison(current, baseline)[c];
    crate::grouping::items_stand_under_both_keys(firsts, seconds, a, b, 0);
    assert(members.contains(members[0]) && members.contains(members.last()));
    crate::grouping::items_stand_under_both_keys(firsts, seconds, a, b, members[0]);
    crate::grouping::items_stand_under_both_keys(firsts, seconds, a, b, members.last());
    assert(all[members[0]].case_id == r.case_id && all[members[0]].metric == r.metric);
    assert(all[members.last()].case_id == r.case_id && all[members.last()].metric == r.metric);
    if r.current is None {
        assert forall|i: int| 0 <= i < current.len() implies (#[trigger] current[i]).case_id
            != r.case_id || current[i].metric != r.metric by {
            assert(all[i] == current[i]);
            crate::grouping::items_stand_under_both_keys(firsts, seconds, a, b, i);
            if members.contains(i) {
                let k = choose|k: int| 0 <= k < members.len() && members[k] == i;
                if k > 0 {
                    assert(members[0] < members[k]);
                }
            }
        }
    }
    if r.baseline is None {
        assert forall|i: int| 0 <= i < baseline.len() implies (#[trigger] baseline[i]).case_id
            != r.case_id || baseline[i].metric != r.metric by {
            assert(all[n + i] == baseline[i]);
            crate::grouping::items_stand_under_both_keys(firsts, seconds, a, b, n + i);
            if members.contains(n + i) {
                let k = choose|k: int| 0 <= k < members.len() && members[k] == n + i;
                if k < members.len() - 1 {
                    assert(members[k] < members[members.len() - 1]);
                }
            }
        }
    }
}

proof fn comparison_comes_from(
    groups: Seq<(Seq<char>, Seq<(Seq<char>, Seq<int>)>)>,
    n: int,
    c: int,
) -> (at: (int, int))
    requires
        0 <= c < compared_cases(groups, n).len(),
    ensures
        0 <= at.0 < groups.len(),
        0 <= at.1 < groups[at.0].1.len(),
        compared_cases(groups, n)[c] == compared(
            groups[at.0].0,
            groups[at.0].1[at.1].0,
            groups[at.0].1[at.1].1,
            n,
        ),
    decreases groups.len(),
{
    let head = compared_cases(groups.drop_last(), n);
    if c < head.len() {
        let at = comparison_comes_from(groups.drop_last(), n, c);
        assert(groups.drop_last()[at.0] == groups[at.0]);
        at
    } else {
        (groups.len() - 1, c - head.len())
    }
}

/// Every score of either run is compared.
pub proof fn every_score_is_compared(current: Seq<EntryModel>, baseline: Seq<EntryModel>, i: int)
    ensures
        0 <= i < current.len() ==> exists|c: int|
            0 <= c < comparison(current, baseline).len() && (#[trigger] comparison(
                current,
                baseline,
            )[c]).case_id == current[i].case_id && comparison(current, baseline)[c].metric
                == current[i].metric,
        0 <= i < baseline.len() ==> exists|c: int|
            0 <= c < comparison(current, baseline).len() && (#[trigger] comparison(
                current,
                baseline,
            )[c]).case_id == baseline[i].case_id && comparison(current, baseline)[c].metric
                == baseline[i].metric,
{
    let all = current + baseline;
    let n = current.len() as int;
    let (firsts, seconds) = (entry_cases(all), entry_metrics(all));
    let groups = grouping2(firsts, seconds);
    if 0 <= i < current.len() {
        let at = crate::grouping::every_item_has_a_group(firsts, seconds, i);
        let c = comparison_of_group(groups, n, at.0, at.1);
        assert(all[i] == current[i]);
        assert(comparison(current, baseline)[c].case_id == current[i].case_id);
    }
    if 0 <= i < baseline.len() {
        let at = crate::grouping::every_item_has_a_group(firsts, seconds, n + i);
        let c = comparison_of_group(groups, n, at.0, at.1);
        assert(all[n + i] == baseline[i]);
        assert(comparison(current, baseline)[c].case_id == baseline[i].case_id);
    }
}

proof fn comparison_of_group(
    groups: Seq<(Seq<char>, Seq<(Seq<char>, Seq<int>)>)>,
    n: int,
    a: int,
    b: int,
) -> (c: int)
    requires
        0 <= a < groups.len(),
        0 <= b < groups[a].1.len(),
    ensures
        0 <= c < compared_cases(groups, n).len(),
        compared_cases(groups, n)[c].case_id == groups[a].0,
        compared_cases(groups, n)[c].metric == groups[a].1[b].0,
    decreases groups.len(),
{
    let head = compared_cases(groups.drop_last(), n);
    if a < groups.len() - 1 {
        comparison_of_group(groups.drop_last(), n, a, b)
    } else {
        head.len() + b
    }
}

/// The scores of a run are compared under their case, their metric and the trace of
/// the case, with their value.
pub proof fn entries_are_the_scores_of_the_cases(cases: Seq<CaseModel>, c: int, k: int)
    requires
        0 <= c < cases.len(),
        0 <= k < cases[c].scores.len(),
    ensures
        exists|i: int|
            0 <= i < entries_of(cases).len() && (#[trigger] entries_of(cases)[i]).case_id
                == cases[c].case_id && entries_of(cases)[i].metric == cases[c].scores[k].0
                && entries_of(cases)[i].value == cases[c].scores[k].1 && entries_of(cases)[i].trace_id
                == cases[c].trace_id,
    decreases cases.len(),
{
    let (head, tail) = (entries_of(cases.drop_last()), case_entries(cases.last()));
    if c == cases.len() - 1 {
        assert(entries_of(cases)[head.len() + k] == tail[k]);
    } else {
        entries_are_the_scores_of_the_cases(cases.drop_last(), c, k);
        let i = choose|i: int|
            0 <= i < head.len() && (#[trigger] head[i]).case_id == cases[c].case_id && head[i].metric
                == cases[c].scores[k].0 && head[i].value == cases[c].scores[k].1 && head[i].trace_id
                == cases[c].trace_id;
        assert(entries_of(cases)[i] == head[i]);
    }
}

} // verus!
