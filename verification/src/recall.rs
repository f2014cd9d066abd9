//! Ranking and filtering of scored memories.

use crate::index::first_of;
use crate::ranking::{is_permutation, precedes, rank, RankKey};
use crate::scalar::{is_undefined, rank_value, Scalar};
use crate::types::{Memory, MemoryView, SearchResult};
use vstd::prelude::*;

verus! {

/// A scored memory, as mathematical values.
pub struct ResultView {
    pub memory: MemoryView,
    pub score: u64,
}

impl View for SearchResult {
    type V = ResultView;

    open spec fn view(&self) -> ResultView {
        ResultView { memory: self.memory@, score: self.score.bits }
    }
}

impl RankKey for SearchResult {
    open spec fn outranks(&self, other: &Self) -> bool {
        rank_value(self.score.bits) > rank_value(other.score.bits)
    }

    fn ranks_ahead(&self, other: &Self) -> (b: bool) {
        self.score.rank() > other.score.rank()
    }

    proof fn lemma_strict_weak_order(a: &Self, b: &Self, c: &Self) {
    }
}

/// The views of a sequence of results.
pub open spec fn result_views(results: Seq<SearchResult>) -> Seq<ResultView> {
    Seq::new(results.len(), |k: int| results[k]@)
}

/// Whether the result at position `i` comes before the one at position `j`
/// when the highest score goes first: its score is higher, or the same and
/// it was stored first.
pub open spec fn higher_first(results: Seq<ResultView>, i: int, j: int) -> bool {
    rank_value(results[i].score) > rank_value(results[j].score) || (rank_value(results[i].score)
        == rank_value(results[j].score) && i < j)
}

/// Whether `order` lists the positions of `results`, the highest score first.
pub open spec fn score_order(results: Seq<ResultView>, order: Seq<usize>) -> bool {
    &&& is_permutation(order, results.len())
    &&& forall|a: int, b: int|
        0 <= a < b < order.len() ==> higher_first(
            results,
            #[trigger] order[a] as int,
            #[trigger] order[b] as int,
        )
}

/// The results at the given positions.
pub open spec fn results_at(results: Seq<ResultView>, positions: Seq<usize>) -> Seq<ResultView> {
    Seq::new(positions.len(), |k: int| results[positions[k] as int])
}

/// The results in the order of their scores, the highest first and equal
/// scores in the order given, at most `limit` of them.
pub fn rank_results(scored: &Vec<SearchResult>, limit: usize) -> (out: Vec<SearchResult>)
    ensures
        exists|order: Seq<usize>|
            score_order(result_views(scored@), order) && result_views(out@) == results_at(
                result_views(scored@),
                #[trigger] first_of(order, limit as nat),
            ),
{
    let ghost views = result_views(scored@);
    let mut order = rank(scored);
    let ghost full = order@;
    proof {
        assert forall|a: int, b: int| 0 <= a < b < full.len() implies higher_first(
            views,
            #[trigger] full[a] as int,
            #[trigger] full[b] as int,
        ) by {
            assert(precedes(scored@, full[a] as int, full[b] as int));
        }
    }
    order.truncate(limit);
    assert(order@ == first_of(full, limit as nat));
    let mut out: Vec<SearchResult> = Vec::new();
    let n = order.len();
    let mut k: usize = 0;
    while k < n
        invariant
            k <= n,
            n == order@.len(),
            views == result_views(scored@),
            forall|i: int| 0 <= i < n ==> (#[trigger] order@[i]) < scored@.len(),
            out@.len() == k,
            forall|i: int| 0 <= i < k ==> (#[trigger] out@[i])@ == views[order@[i] as int],
        decreases n - k,
    {
        let p = order[k];
        out.push(SearchResult { memory: scored[p].memory.duplicate(), score: scored[p].score });
        k += 1;
    }
    assert(result_views(out@) =~= results_at(views, order@));
    out
}

/// Whether a score reaches a threshold.
pub open spec fn reaches(score: u64, threshold: u64) -> bool {
    !is_undefined(score) && !is_undefined(threshold) && rank_value(score) >= rank_value(threshold)
}

/// Those of `results`, in order, whose score reaches `threshold`.
pub open spec fn passing(results: Seq<ResultView>, threshold: u64) -> Seq<ResultView>
    decreases results.len(),
{
    if results.len() == 0 {
        Seq::empty()
    } else {
        let rest = passing(results.drop_last(), threshold);
        if reaches(results.last().score, threshold) {
            rest.push(results.last())
        } else {
            rest
        }
    }
}

/// The results whose score reaches `threshold`, in the order given, at most
/// `limit` of them.
pub fn filter_results(results: &Vec<SearchResult>, threshold: Scalar, limit: usize) -> (out: Vec<
    SearchResult,
>)
    ensures
        result_views(out@) == first_of(
            passing(result_views(results@), threshold.bits),
            limit as nat,
        ),
{
    let ghost views = result_views(results@);
    let mut out: Vec<SearchResult> = Vec::new();
    let n = results.len();
    let mut k: usize = 0;
    assert(views.take(0) == Seq::<ResultView>::empty());
    assert(result_views(out@) == Seq::<ResultView>::empty());
    while k < n
        invariant
            k <= n,
            n == results@.len(),
            views == result_views(results@),
            result_views(out@) == passing(views.take(k as int), threshold.bits),
        decreases n - k,
    {
        assert(views.take(k + 1).drop_last() == views.take(k as int));
        assert(views.take(k + 1).last() == results@[k as int]@);
        if results[k].score.at_least(&threshold) {
            let ghost before = result_views(out@);
            out.push(
                SearchResult { memory: results[k].memory.duplicate(), score: results[k].score },
            );
            assert(result_views(out@) == before.push(results@[k as int]@));
        }
        k += 1;
    }
    assert(views.take(n as int) == views);
    let ghost all = result_views(out@);
    out.truncate(limit);
    assert(result_views(out@) == first_of(all, limit as nat));
    out
}

} // verus!
