//! The result set of a run.
//!
//! Once every file is analysed, the matches are gathered from the outcomes,
//! put in the order of their paths, and cut to the limit. The sort is stable:
//! matches of one path keep the order in which they came.

use crate::analysis::{FileOutcome, HandlingClass, MatchResult, MatchView, OutcomeView};
use crate::order::{lemma_path_order, path_le, path_less, path_lt};
use crate::stats::{class_count, lemma_classes_partition, Counters, RunStats};
use vstd::prelude::*;
use vstd::string::*;

verus! {

/// What a run hands out: its statistics and its matches.
#[derive(Debug, Clone, PartialEq, Eq)]
pub struct Report {
    pub stats: RunStats,
    pub results: Vec<MatchResult>,
}

/// The matches among the outcomes, in the order of the outcomes.
pub open spec fn matches_of(outcomes: Seq<OutcomeView>) -> Seq<MatchView> {
    outcomes.filter_map(|o: OutcomeView| o.result)
}

/// Item `i` goes before item `j`: its path comes first, or the paths are the
/// same and `i` came first.
pub open spec fn goes_before(items: Seq<MatchView>, i: int, j: int) -> bool {
    path_lt(items[i].path, items[j].path) || (items[i].path == items[j].path && i < j)
}

/// The positions in `run` are positions of `items`, each going before the
/// next ones.
pub open spec fn is_ordered_run(items: Seq<MatchView>, run: Seq<usize>) -> bool {
    &&& forall|k: int| 0 <= k < run.len() ==> run[k] < items.len()
    &&& forall|a: int, b: int|
        0 <= a < b < run.len() ==> #[trigger] goes_before(items, run[a] as int, run[b] as int)
}

/// `order` lists the positions of `items` in sorted order: every position
/// occurs in it, and each goes before the next ones, so that none occurs
/// twice.
pub open spec fn is_sorting_order(items: Seq<MatchView>, order: Seq<usize>) -> bool {
    &&& order.len() == items.len()
    &&& is_ordered_run(items, order)
    &&& forall|i: usize| i < items.len() ==> order.contains(i)
}

/// The items at the positions that `order` lists.
pub open spec fn arranged(items: Seq<MatchView>, order: Seq<usize>) -> Seq<MatchView> {
    Seq::new(order.len(), |k: int| items[order[k] as int])
}

/// `sorted` holds the items of `items` by ascending path, those of one path
/// in the order they have in `items`.
pub open spec fn is_stable_sort_by_path(sorted: Seq<MatchView>, items: Seq<MatchView>) -> bool {
    exists|order: Seq<usize>| #[trigger]
        is_sorting_order(items, order) && sorted == arranged(items, order)
}

/// The paths never descend.
pub open spec fn ascending_by_path(items: Seq<MatchView>) -> bool {
    forall|a: int, b: int| 0 <= a < b < items.len() ==> path_le(items[a].path, items[b].path)
}

/// The paths ascend strictly, so that none occurs twice.
pub open spec fn strictly_ascending_by_path(items: Seq<MatchView>) -> bool {
    forall|a: int, b: int| 0 <= a < b < items.len() ==> path_lt(items[a].path, items[b].path)
}

/// No path occurs twice.
pub open spec fn distinct_paths(items: Seq<MatchView>) -> bool {
    forall|a: int, b: int| 0 <= a < b < items.len() ==> items[a].path != items[b].path
}

/// The first `limit` of the items, or all of them without a limit.
pub open spec fn limited(items: Seq<MatchView>, limit: Option<usize>) -> Seq<MatchView> {
    match limit {
        Some(l) => if l < items.len() {
            items.take(l as int)
        } else {
            items
        },
        None => items,
    }
}

/// Going before is transitive.
proof fn lemma_goes_before_transitive(items: Seq<MatchView>, i: int, j: int, k: int)
    requires
        goes_before(items, i, j),
        goes_before(items, j, k),
    ensures
        goes_before(items, i, k),
{
    lemma_path_order(items[i].path, items[j].path, items[k].path);
}

/// Of two positions, the one that does not go behind goes before.
proof fn lemma_goes_before_total(items: Seq<MatchView>, i: int, j: int)
    requires
        i < j,
        !path_lt(items[j].path, items[i].path),
    ensures
        goes_before(items, i, j),
{
    lemma_path_order(items[i].path, items[j].path, items[i].path);
}

/// A stable sort by path ascends by path; and where no path occurs twice
/// among the items, it ascends strictly, so that none occurs twice in it.
pub proof fn lemma_sorted_ascends(sorted: Seq<MatchView>, items: Seq<MatchView>)
    requires
        is_stable_sort_by_path(sorted, items),
    ensures
        sorted.len() == items.len(),
        ascending_by_path(sorted),
        distinct_paths(items) ==> strictly_ascending_by_path(sorted) && distinct_paths(sorted),
{
    let order = choose|order: Seq<usize>| #[trigger]
        is_sorting_order(items, order) && sorted == arranged(items, order);
    assert forall|a: int, b: int| 0 <= a < b < sorted.len() implies path_le(
        sorted[a].path,
        sorted[b].path,
    ) by {
        assert(goes_before(items, order[a] as int, order[b] as int));
    }
    if distinct_paths(items) {
        assert forall|a: int, b: int| 0 <= a < b < sorted.len() implies path_lt(
            sorted[a].path,
            sorted[b].path,
        ) by {
            let i = order[a] as int;
            let j = order[b] as int;
            assert(goes_before(items, i, j));
            if i < j {
                assert(items[i].path != items[j].path);
            }
        }
        assert forall|a: int, b: int| 0 <= a < b < sorted.len() implies sorted[a].path
            != sorted[b].path by {
            assert(path_lt(sorted[a].path, sorted[b].path));
            lemma_path_order(sorted[a].path, sorted[b].path, sorted[a].path);
        }
    }
}

/// Cutting to a limit leaves the smaller of the limit and the number of
/// items, and leaves them as they were ordered.
pub proof fn lemma_limited(items: Seq<MatchView>, limit: Option<usize>)
    ensures
        limited(items, limit).len() == match limit {
            Some(l) => if l < items.len() {
                l as nat
            } else {
                items.len()
            },
            None => items.len(),
        },
        forall|k: int| 0 <= k < limited(items, limit).len() ==> limited(items, limit)[k] == items[k],
        ascending_by_path(items) ==> ascending_by_path(limited(items, limit)),
        strictly_ascending_by_path(items) ==> strictly_ascending_by_path(limited(items, limit)),
{
}

/// Merges two ordered runs, every position of the first being smaller than
/// every position of the second, into one ordered run.
fn merge_runs(items: &Vec<MatchResult>, left: &Vec<usize>, right: &Vec<usize>) -> (out: Vec<usize>)
    requires
        left.len() + right.len() <= usize::MAX,
        is_ordered_run(items.deep_view(), left@),
        is_ordered_run(items.deep_view(), right@),
        forall|a: int, b: int| 0 <= a < left.len() && 0 <= b < right.len() ==> left[a] < right[b],
    ensures
        out.len() == left.len() + right.len(),
        is_ordered_run(items.deep_view(), out@),
        forall|k: int| 0 <= k < out.len() ==> left@.contains(out[k]) || right@.contains(out[k]),
        forall|a: int| 0 <= a < left.len() ==> out@.contains(left@[a]),
        forall|b: int| 0 <= b < right.len() ==> out@.contains(right@[b]),
{
    let ghost views = items.deep_view();
    let mut out: Vec<usize> = Vec::new();
    let mut i: usize = 0;
    let mut j: usize = 0;
    while i < left.len() || j < right.len()
        invariant
            i <= left.len(),
            j <= right.len(),
            out.len() == i + j,
            left.len() + right.len() <= usize::MAX,
            views == items.deep_view(),
            is_ordered_run(views, left@),
            is_ordered_run(views, right@),
            forall|a: int, b: int|
                0 <= a < left.len() && 0 <= b < right.len() ==> left[a] < right[b],
            is_ordered_run(views, out@),
            forall|k: int, a: int|
                0 <= k < out.len() && i <= a < left.len() ==> #[trigger] goes_before(
                    views,
                    out[k] as int,
                    left[a] as int,
                ),
            forall|k: int, b: int|
                0 <= k < out.len() && j <= b < right.len() ==> #[trigger] goes_before(
                    views,
                    out[k] as int,
                    right[b] as int,
                ),
            forall|k: int| 0 <= k < out.len() ==> left@.contains(out[k]) || right@.contains(out[k]),
            forall|a: int| 0 <= a < i ==> out@.contains(left@[a]),
            forall|b: int| 0 <= b < j ==> out@.contains(right@[b]),
        decreases left.len() - i + right.len() - j,
    {
        let take_right = if i == left.len() {
            true
        } else if j == right.len() {
            false
        } else {
            path_less(items[right[j]].path.as_str(), items[left[i]].path.as_str())
        };
        let ghost before = out@;
        if take_right {
            let next = right[j];
            proof {
                assert forall|a: int| i <= a < left.len() implies goes_before(
                    views,
                    next as int,
                    left[a] as int,
                ) by {
                    if a > i {
                        assert(goes_before(views, left[i as int] as int, left[a] as int));
                        lemma_goes_before_transitive(
                            views,
                            next as int,
                            left[i as int] as int,
                            left[a] as int,
                        );
                    }
                }
                assert forall|b: int| j < b < right.len() implies goes_before(
                    views,
                    next as int,
                    right[b] as int,
                ) by {
                    assert(goes_before(views, right[j as int] as int, right[b] as int));
                }
            }
            out.push(next);
            j += 1;
            proof {
                assert(right@.contains(next));
                assert forall|a: int, b: int| 0 <= a < b < out.len() implies goes_before(
                    views,
                    out[a] as int,
                    out[b] as int,
                ) by {
                    if b == out.len() - 1 {
                        assert(out[a] == before[a]);
                        assert(goes_before(views, before[a] as int, right[j - 1] as int));
                    } else {
                        assert(goes_before(views, before[a] as int, before[b] as int));
                    }
                }
            }
        } else {
            let next = left[i];
            proof {
                assert forall|b: int| j <= b < right.len() implies goes_before(
                    views,
                    next as int,
                    right[b] as int,
                ) by {
                    lemma_goes_before_total(views, next as int, right[j as int] as int);
                    if b > j {
                        assert(goes_before(views, right[j as int] as int, right[b] as int));
                        lemma_goes_before_transitive(
                            views,
                            next as int,
                            right[j as int] as int,
                            right[b] as int,
                        );
                    }
                }
                assert forall|a: int| i < a < left.len() implies goes_before(
                    views,
                    next as int,
                    left[a] as int,
                ) by {
                    assert(goes_before(views, left[i as int] as int, left[a] as int));
                }
            }
            out.push(next);
            i += 1;
            proof {
                assert(left@.contains(next));
                assert forall|a: int, b: int| 0 <= a < b < out.len() implies goes_before(
                    views,
                    out[a] as int,
                    out[b] as int,
                ) by {
                    if b == out.len() - 1 {
                        assert(out[a] == before[a]);
                        assert(goes_before(views, before[a] as int, left[i - 1] as int));
                    } else {
                        assert(goes_before(views, before[a] as int, before[b] as int));
                    }
                }
            }
        }
        proof {
            assert forall|k: int| 0 <= k < out.len() implies left@.contains(out[k])
                || right@.contains(out[k]) by {
                if k < before.len() {
                    assert(out[k] == before[k]);
                }
            }
            assert(out@[out.len() - 1] == out@.last());
            assert forall|a: int| 0 <= a < i implies out@.contains(left@[a]) by {
                if before.contains(left@[a]) {
                    let k = choose|k: int| 0 <= k < before.len() && before[k] == left@[a];
                    assert(out@[k] == left@[a]);
                }
            }
            assert forall|b: int| 0 <= b < j implies out@.contains(right@[b]) by {
                if before.contains(right@[b]) {
                    let k = choose|k: int| 0 <= k < before.len() && before[k] == right@[b];
                    assert(out@[k] == right@[b]);
                }
            }
        }
    }
    out
}

/// The positions from `lo` to `hi`, in sorted order.
fn order_of_range(items: &Vec<MatchResult>, lo: usize, hi: usize) -> (out: Vec<usize>)
    requires
        lo <= hi <= items.len(),
    ensures
        out.len() == hi - lo,
        is_ordered_run(items.deep_view(), out@),
        forall|k: int| 0 <= k < out.len() ==> lo <= #[trigger] out@[k] < hi,
        forall|x: usize| lo <= x < hi ==> out@.contains(x),
    decreases hi - lo,
{
    if hi - lo == 0 {
        Vec::new()
    } else if hi - lo == 1 {
        let mut out: Vec<usize> = Vec::new();
        out.push(lo);
        assert(out@[0] == lo);
        out
    } else {
        let mid: usize = lo + (hi - lo) / 2;
        let left = order_of_range(items, lo, mid);
        let right = order_of_range(items, mid, hi);
        let out = merge_runs(items, &left, &right);
        proof {
            assert forall|k: int| 0 <= k < out.len() implies lo <= #[trigger] out@[k] < hi by {
                if left@.contains(out[k]) {
                    let a = choose|a: int| 0 <= a < left.len() && left[a] == out[k];
                } else {
                    let b = choose|b: int| 0 <= b < right.len() && right[b] == out[k];
                }
            }
            assert forall|x: usize| lo <= x < hi implies out@.contains(x) by {
                if x < mid {
                    assert(left@.contains(x));
                    let a = choose|a: int| 0 <= a < left.len() && left@[a] == x;
                    assert(out@.contains(left@[a]));
                } else {
                    assert(right@.contains(x));
                    let b = choose|b: int| 0 <= b < right.len() && right@[b] == x;
                    assert(out@.contains(right@[b]));
                }
            }
        }
        out
    }
}

/// The positions of the items, in the order of a stable sort by path.
pub fn sorting_order(items: &Vec<MatchResult>) -> (order: Vec<usize>)
    ensures
        is_sorting_order(items.deep_view(), order@),
{
    order_of_range(items, 0, items.len())
}

/// The items by ascending path, those of one path in the order they came.
pub fn sort_by_path(items: Vec<MatchResult>) -> (sorted: Vec<MatchResult>)
    ensures
        is_stable_sort_by_path(sorted.deep_view(), items.deep_view()),
        sorted.len() == items.len(),
        ascending_by_path(sorted.deep_view()),
        distinct_paths(items.deep_view()) ==> strictly_ascending_by_path(sorted.deep_view()),
{
    let order = sorting_order(&items);
    let ghost views = items.deep_view();
    let n: usize = items.len();
    let mut slots: Vec<Option<MatchResult>> = Vec::new();
    for item in it: items
        invariant
            it.seq() == items@,
            slots.len() == it.index(),
            forall|i: int| 0 <= i < slots.len() ==> slots[i] == Some(items@[i]),
    {
        slots.push(Some(item));
    }
    let mut sorted: Vec<MatchResult> = Vec::new();
    let mut k: usize = 0;
    while k < n
        invariant
            k <= n,
            n == views.len(),
            order.len() == n,
            slots.len() == n,
            views == items.deep_view(),
            is_sorting_order(views, order@),
            sorted.len() == k,
            forall|a: int| 0 <= a < k ==> sorted[a]@ == views[order[a] as int],
            forall|i: int|
                0 <= i < n ==> slots[i] == if exists|a: int| 0 <= a < k && order[a] == i {
                    None
                } else {
                    Some(items@[i])
                },
        decreases n - k,
    {
        let at: usize = order[k];
        proof {
            if exists|a: int| 0 <= a < k && order[a] == at {
                let a = choose|a: int| 0 <= a < k && order[a] == at;
                assert(goes_before(views, order[a] as int, order[k as int] as int));
                lemma_path_order(views[at as int].path, views[at as int].path, views[at as int].path);
            }
        }
        let item = slots[at].take().unwrap();
        sorted.push(item);
        proof {
            assert forall|i: int| 0 <= i < n implies slots[i] == if exists|a: int|
                0 <= a < k + 1 && order[a] == i {
                None
            } else {
                Some(items@[i])
            } by {
                if i == at {
                    assert(order[k as int] == i);
                } else {
                    if exists|a: int| 0 <= a < k + 1 && order[a] == i {
                        let a = choose|a: int| 0 <= a < k + 1 && order[a] == i;
                        assert(a < k);
                    }
                }
            }
        }
        k += 1;
    }
    proof {
        assert(sorted.deep_view() =~= arranged(views, order@));
        assert(is_sorting_order(views, order@));
        lemma_sorted_ascends(sorted.deep_view(), views);
    }
    sorted
}

/// The matches among the outcomes, in the order of the outcomes.
pub fn collect_matches(outcomes: Vec<FileOutcome>) -> (found: Vec<MatchResult>)
    ensures
        found.deep_view() == matches_of(outcomes.deep_view()),
{
    let ghost all = outcomes.deep_view();
    let ghost pick = |o: OutcomeView| o.result;
    let mut found: Vec<MatchResult> = Vec::new();
    proof {
        assert(all.take(0).filter_map(pick) =~= Seq::<MatchView>::empty());
        assert(found.deep_view() =~= Seq::<MatchView>::empty());
    }
    for outcome in it: outcomes
        invariant
            it.seq() == outcomes@,
            all == outcomes.deep_view(),
            pick == |o: OutcomeView| o.result,
            found.deep_view() == all.take(it.index()).filter_map(pick),
    {
        let ghost before = found.deep_view();
        proof {
            all.lemma_filter_map_take_succ(pick, it.index());
            assert(all[it.index()] == outcome@);
        }
        match outcome.result {
            Some(m) => {
                found.push(m);
                assert(found.deep_view() =~= before + seq![m@]);
            },
            None => {
                assert(found.deep_view() =~= before + Seq::<MatchView>::empty());
            },
        }
    }
    proof {
        assert(all.take(all.len() as int) =~= all);
    }
    found
}

/// Ends a run: tallies the outcomes of its files, and hands out the matches
/// by ascending path, no more of them than the limit allows.
pub fn finish_run(outcomes: Vec<FileOutcome>, limit: Option<usize>, elapsed_ms: u128) -> (report:
    Report)
    ensures
        report.stats.files_discovered == outcomes.len(),
        report.stats.files_scanned_text == class_count(
            outcomes.deep_view(),
            HandlingClass::ScannedText,
        ),
        report.stats.files_scanned_pdf == class_count(
            outcomes.deep_view(),
            HandlingClass::ScannedPdf,
        ),
        report.stats.files_skipped_non_text == class_count(
            outcomes.deep_view(),
            HandlingClass::SkippedNonText,
        ),
        report.stats.files_skipped_too_large == class_count(
            outcomes.deep_view(),
            HandlingClass::SkippedTooLarge,
        ),
        report.stats.files_skipped_non_utf8 == class_count(
            outcomes.deep_view(),
            HandlingClass::SkippedNonUtf8,
        ),
        report.stats.files_skipped_unreadable_text == class_count(
            outcomes.deep_view(),
            HandlingClass::SkippedUnreadableText,
        ),
        report.stats.files_skipped_unreadable_pdf == class_count(
            outcomes.deep_view(),
            HandlingClass::SkippedUnreadablePdf,
        ),
        (forall|i: int| 0 <= i < outcomes.len() ==> outcomes.deep_view()[i].class is Some)
            ==> report.stats.files_discovered == report.stats.files_scanned_text
            + report.stats.files_scanned_pdf + report.stats.files_skipped_non_text
            + report.stats.files_skipped_too_large + report.stats.files_skipped_non_utf8
            + report.stats.files_skipped_unreadable_text
            + report.stats.files_skipped_unreadable_pdf,
        report.stats.matches_total == matches_of(outcomes.deep_view()).len(),
        report.stats.matches_printed == report.results.len(),
        report.stats.matches_printed == match limit {
            Some(l) => if l < report.stats.matches_total {
                l
            } else {
                report.stats.matches_total
            },
            None => report.stats.matches_total,
        },
        report.stats.elapsed_ms == elapsed_ms,
        exists|sorted: Seq<MatchView>| #[trigger]
            is_stable_sort_by_path(sorted, matches_of(outcomes.deep_view()))
                && report.results.deep_view() == limited(sorted, limit),
        ascending_by_path(report.results.deep_view()),
        distinct_paths(matches_of(outcomes.deep_view())) ==> strictly_ascending_by_path(
            report.results.deep_view(),
        ),
{
    let files_discovered: usize = outcomes.len();
    let counters = Counters::tally(&outcomes);
    proof {
        lemma_classes_partition(outcomes.deep_view());
    }
    let found = collect_matches(outcomes);
    let mut results = sort_by_path(found);
    let matches_total: usize = results.len();
    let ghost sorted = results.deep_view();
    match limit {
        Some(l) => {
            if results.len() > l {
                results.truncate(l);
                assert(results.deep_view() =~= sorted.take(l as int));
            }
        },
        None => {},
    }
    proof {
        lemma_limited(sorted, limit);
        assert(results.deep_view() == limited(sorted, limit));
    }
    let matches_printed: usize = results.len();
    Report {
        stats: RunStats {
            files_discovered,
            files_scanned_text: counters.scanned_text,
            files_scanned_pdf: counters.scanned_pdf,
            files_skipped_non_text: counters.skipped_non_text,
            files_skipped_too_large: counters.skipped_too_large,
            files_skipped_non_utf8: counters.skipped_non_utf8,
            files_skipped_unreadable_text: counters.skipped_unreadable_text,
            files_skipped_unreadable_pdf: counters.skipped_unreadable_pdf,
            matches_total,
            matches_printed,
            elapsed_ms,
        },
        results,
    }
}

} // verus!
