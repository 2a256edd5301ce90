//! Selection: one pass over the ranking, from the fittest entry down, in which
//! each entry is accepted as a parent with its own probability, and a
//! fallback to the best-ranked entries for the parents still missing after
//! the pass.

use crate::random::{probability, RandomSource};
use crate::ranking::{ranks_slot, Score};
use vstd::prelude::*;

verus! {

/// The first position at or behind `from` that is eligible, or the length of
/// `eligible` where there is none.
pub open spec fn first_from(eligible: Seq<bool>, from: int) -> int
    decreases eligible.len() - from,
{
    if from < 0 || from >= eligible.len() {
        eligible.len() as int
    } else if eligible[from] {
        from
    } else {
        first_from(eligible, from + 1)
    }
}

/// For each entry of the ranking, whether its slot is none of `selected`.
pub open spec fn unselected(scores: Seq<Score>, selected: Seq<usize>) -> Seq<bool> {
    Seq::new(scores.len(), |k: int| !selected.contains(scores[k].index))
}

/// For each entry of the ranking, whether its trial succeeded and its slot is
/// none of `selected`.
pub open spec fn acceptable(scores: Seq<Score>, hits: Seq<bool>, selected: Seq<usize>) -> Seq<
    bool,
> {
    Seq::new(scores.len(), |k: int| hits[k] && !selected.contains(scores[k].index))
}

/// The parents that the trial outcomes `hits` give, `hits[k]` being the
/// outcome of the trial of entry `k`.
///
/// The first parent is the first entry whose trial succeeded, the second
/// parent the next entry of another slot whose trial succeeded. Where no trial
/// succeeded the parents are the two best-ranked entries; where the second is
/// missing it is the best-ranked entry of another slot than the first.
pub open spec fn spec_parents(scores: Seq<Score>, hits: Seq<bool>) -> (usize, usize) {
    let a = first_from(hits, 0);
    if a >= scores.len() {
        (scores[0].index, scores[1].index)
    } else {
        let first = scores[a].index;
        let b = first_from(acceptable(scores, hits, seq![first]), a + 1);
        if b < scores.len() {
            (first, scores[b].index)
        } else {
            (first, scores[first_from(unselected(scores, seq![first]), 0)].index)
        }
    }
}

/// `hits` can be the outcomes of the trials of the ranking: a trial of
/// probability zero failed, a trial of probability one succeeded.
pub open spec fn possible_outcomes(scores: Seq<Score>, hits: Seq<bool>) -> bool {
    &&& hits.len() == scores.len()
    &&& forall|k: int|
        0 <= k < scores.len() ==> ((#[trigger] scores[k]).probability.never() ==> !hits[k]) && (
        scores[k].probability.always() ==> hits[k])
}

/// `first_from` gives an eligible position, with none eligible between `from`
/// and it.
pub proof fn lemma_first_from(eligible: Seq<bool>, from: int)
    requires
        0 <= from <= eligible.len(),
    ensures
        from <= first_from(eligible, from) <= eligible.len(),
        first_from(eligible, from) < eligible.len() ==> eligible[first_from(eligible, from)],
        forall|j: int| from <= j < first_from(eligible, from) ==> !#[trigger] eligible[j],
    decreases eligible.len() - from,
{
    if from < eligible.len() && !eligible[from] {
        lemma_first_from(eligible, from + 1);
    }
}

/// The position `at` is the one that `first_from` gives, where it is eligible
/// and nothing between `from` and it is.
pub proof fn lemma_first_from_is(eligible: Seq<bool>, from: int, at: int)
    requires
        0 <= from <= at <= eligible.len(),
        at < eligible.len() ==> eligible[at],
        forall|j: int| from <= j < at ==> !#[trigger] eligible[j],
    ensures
        first_from(eligible, from) == at,
{
    lemma_first_from(eligible, from);
}

/// Whatever the trials give, the parents are two different slots of the
/// ranking.
pub proof fn lemma_parents_are_two_slots(scores: Seq<Score>, hits: Seq<bool>)
    requires
        scores.len() >= 2,
        scores[0].index != scores[1].index,
        hits.len() == scores.len(),
    ensures
        spec_parents(scores, hits).0 != spec_parents(scores, hits).1,
        ranks_slot(scores, spec_parents(scores, hits).0 as int),
        ranks_slot(scores, spec_parents(scores, hits).1 as int),
{
    let n = scores.len() as int;
    let a = first_from(hits, 0);
    lemma_first_from(hits, 0);
    if a >= n {
        assert(scores[0].index == spec_parents(scores, hits).0);
        assert(scores[1].index == spec_parents(scores, hits).1);
    } else {
        let first = scores[a].index;
        assert(seq![first][0] == first);
        let open = acceptable(scores, hits, seq![first]);
        let b = first_from(open, a + 1);
        lemma_first_from(open, a + 1);
        if b < n {
            assert(open[b]);
            assert(scores[b].index == spec_parents(scores, hits).1);
        } else {
            let free = unselected(scores, seq![first]);
            let other = first_from(free, 0);
            lemma_first_from(free, 0);
            if other >= n {
                assert(!free[0]);
                assert(!free[1]);
            }
            assert(free[other]);
            assert(scores[other].index == spec_parents(scores, hits).1);
        }
        assert(scores[a].index == spec_parents(scores, hits).0);
    }
}

/// Where no trial succeeds, the parents are the two best-ranked entries.
pub proof fn lemma_parents_without_success(scores: Seq<Score>, hits: Seq<bool>)
    requires
        hits.len() == scores.len(),
        forall|k: int| 0 <= k < hits.len() ==> !#[trigger] hits[k],
    ensures
        spec_parents(scores, hits) == (scores[0].index, scores[1].index),
{
    lemma_first_from_is(hits, 0, hits.len() as int);
}

/// The state of the pass after the first `done` entries: `a` and `b` are the
/// positions of the entries accepted so far.
spec fn pass_state(
    scores: Seq<Score>,
    hits: Seq<bool>,
    done: int,
    a: int,
    b: int,
    first: Option<usize>,
    second: Option<usize>,
    was_selected: Seq<usize>,
) -> bool {
    &&& 0 <= done <= scores.len()
    &&& done <= hits.len()
    &&& first is None ==> {
        &&& second is None
        &&& was_selected == Seq::<usize>::empty()
        &&& forall|j: int| 0 <= j < done ==> !#[trigger] hits[j]
    }
    &&& first is Some ==> {
        &&& 0 <= a < done
        &&& hits[a]
        &&& first == Some(scores[a].index)
        &&& forall|j: int| 0 <= j < a ==> !#[trigger] hits[j]
        &&& second is None ==> {
            &&& was_selected == seq![scores[a].index]
            &&& forall|j: int|
                a < j < done ==> !(#[trigger] hits[j] && scores[j].index != scores[a].index)
        }
        &&& second is Some ==> {
            &&& a < b < done
            &&& hits[b]
            &&& scores[b].index != scores[a].index
            &&& second == Some(scores[b].index)
            &&& was_selected == seq![scores[a].index, scores[b].index]
            &&& forall|j: int|
                a < j < b ==> !(#[trigger] hits[j] && scores[j].index != scores[a].index)
        }
    }
}

/// One step of the pass keeps its state: the entry `done` is accepted where
/// `accepted` says so, into the first parent slot that is still empty.
proof fn lemma_pass_step(
    scores: Seq<Score>,
    hits: Seq<bool>,
    done: int,
    a: int,
    b: int,
    first: Option<usize>,
    second: Option<usize>,
    was_selected: Seq<usize>,
    first_after: Option<usize>,
    second_after: Option<usize>,
    was_selected_after: Seq<usize>,
) -> (positions: (int, int))
    requires
        pass_state(scores, hits, done, a, b, first, second, was_selected),
        done < scores.len(),
        done < hits.len(),
        ({
            let slot = scores[done].index;
            let accepted = hits[done] && !was_selected.contains(slot);
            if accepted && first is None {
                first_after == Some(slot) && second_after == second && was_selected_after
                    == was_selected.push(slot)
            } else if accepted && second is None {
                first_after == first && second_after == Some(slot) && was_selected_after
                    == was_selected.push(slot)
            } else {
                first_after == first && second_after == second && was_selected_after
                    == was_selected
            }
        }),
    ensures
        pass_state(
            scores,
            hits,
            done + 1,
            positions.0,
            positions.1,
            first_after,
            second_after,
            was_selected_after,
        ),
{
    let slot = scores[done].index;
    let accepted = hits[done] && !was_selected.contains(slot);
    if first is None {
        assert(!was_selected.contains(slot));
        if accepted {
            assert(was_selected.push(slot) =~= seq![slot]);
            (done, b)
        } else {
            (a, b)
        }
    } else if second is None {
        let taken = scores[a].index;
        assert(was_selected[0] == taken);
        assert(was_selected.contains(slot) <==> slot == taken);
        if accepted {
            assert(was_selected.push(slot) =~= seq![taken, slot]);
            (a, done)
        } else {
            (a, b)
        }
    } else {
        (a, b)
    }
}

/// What the finished pass says of the parents that `spec_parents` gives.
proof fn lemma_pass_done(
    scores: Seq<Score>,
    hits: Seq<bool>,
    a: int,
    b: int,
    first: Option<usize>,
    second: Option<usize>,
    was_selected: Seq<usize>,
)
    requires
        scores.len() >= 2,
        scores[0].index != scores[1].index,
        hits.len() == scores.len(),
        pass_state(scores, hits, scores.len() as int, a, b, first, second, was_selected),
    ensures
        !(first is None && second is Some),
        first is None ==> spec_parents(scores, hits) == (scores[0].index, scores[1].index),
        first is Some && second is Some ==> spec_parents(scores, hits) == (
            first->Some_0,
            second->Some_0,
        ),
        first is Some && second is None ==> {
            let other = first_from(unselected(scores, was_selected), 0);
            &&& 0 <= other < scores.len()
            &&& !was_selected.contains(scores[other].index)
            &&& spec_parents(scores, hits) == (first->Some_0, scores[other].index)
        },
{
    let n = scores.len() as int;
    lemma_parents_are_two_slots(scores, hits);
    if first is None {
        lemma_parents_without_success(scores, hits);
    } else {
        lemma_first_from_is(hits, 0, a);
        let taken = scores[a].index;
        assert(seq![taken][0] == taken);
        let open = acceptable(scores, hits, seq![taken]);
        if second is Some {
            lemma_first_from_is(open, a + 1, b);
        } else {
            lemma_first_from_is(open, a + 1, n);
            let free = unselected(scores, seq![taken]);
            lemma_first_from(free, 0);
            if first_from(free, 0) >= n {
                assert(!free[0]);
                assert(!free[1]);
            }
            assert(free[first_from(free, 0)]);
        }
    }
}

/// Tells whether `slot` is one of `list`.
fn contains_slot(list: &Vec<usize>, slot: usize) -> (found: bool)
    ensures
        found == list@.contains(slot),
{
    let mut i: usize = 0;
    while i < list.len()
        invariant
            i <= list.len(),
            forall|j: int| 0 <= j < i ==> list[j] != slot,
        decreases list.len() - i,
    {
        if list[i] == slot {
            return true;
        }
        i += 1;
    }
    false
}

/// The slot of the best-ranked entry that is none of `selected_list`.
pub fn pick_unselected(scores: &Vec<Score>, selected_list: &Vec<usize>) -> (slot: usize)
    requires
        exists|k: int|
            0 <= k < scores.len() && !selected_list@.contains((#[trigger] scores[k]).index),
    ensures
        first_from(unselected(scores@, selected_list@), 0) < scores.len(),
        slot == scores[first_from(unselected(scores@, selected_list@), 0)].index,
        !selected_list@.contains(slot),
        ranks_slot(scores@, slot as int),
{
    let ghost free = unselected(scores@, selected_list@);
    let ghost witness = choose|k: int|
        0 <= k < scores.len() && !selected_list@.contains((#[trigger] scores[k]).index);
    let mut i: usize = 0;
    loop
        invariant
            i <= witness < scores.len(),
            free == unselected(scores@, selected_list@),
            !selected_list@.contains(scores[witness].index),
            forall|j: int| 0 <= j < i ==> !#[trigger] free[j],
        decreases scores.len() - i,
    {
        let slot = scores[i].index;
        if !contains_slot(selected_list, slot) {
            proof {
                lemma_first_from_is(free, 0, i as int);
            }
            return slot;
        }
        i += 1;
    }
}

/// The parents at the end of the pass: the two that the pass accepted, or the
/// fallback for those it left open.
fn settle(
    scores: &Vec<Score>,
    first: Option<usize>,
    second: Option<usize>,
    was_selected: &Vec<usize>,
    Ghost(hits): Ghost<Seq<bool>>,
    Ghost(a): Ghost<int>,
    Ghost(b): Ghost<int>,
) -> (parents: (usize, usize))
    requires
        scores.len() >= 2,
        scores[0].index != scores[1].index,
        hits.len() == scores.len(),
        pass_state(scores@, hits, scores.len() as int, a, b, first, second, was_selected@),
    ensures
        parents == spec_parents(scores@, hits),
        parents.0 != parents.1,
        ranks_slot(scores@, parents.0 as int),
        ranks_slot(scores@, parents.1 as int),
{
    proof {
        lemma_pass_done(scores@, hits, a, b, first, second, was_selected@);
        lemma_parents_are_two_slots(scores@, hits);
    }
    match (first, second) {
        (Some(a), Some(b)) => (a, b),
        (None, None) => (scores[0].index, scores[1].index),
        (Some(a), None) => (a, pick_unselected(scores, was_selected)),
        (None, Some(b)) => (b, pick_unselected(scores, was_selected)),
    }
}

/// The parents that the given trial outcomes select: `hits[k]` is the outcome
/// of the trial of entry `k`, and is not looked at where that entry needs no
/// trial.
pub fn parents_from_trials(scores: &Vec<Score>, hits: &Vec<bool>) -> (parents: (usize, usize))
    requires
        scores.len() >= 2,
        scores[0].index != scores[1].index,
        hits.len() == scores.len(),
    ensures
        parents == spec_parents(scores@, hits@),
        parents.0 != parents.1,
        ranks_slot(scores@, parents.0 as int),
        ranks_slot(scores@, parents.1 as int),
{
    let mut first: Option<usize> = None;
    let mut second: Option<usize> = None;
    let mut was_selected: Vec<usize> = Vec::new();
    let ghost mut a: int = 0;
    let ghost mut b: int = 0;
    let mut i: usize = 0;
    while i < scores.len()
        invariant
            hits.len() == scores.len(),
            pass_state(scores@, hits@, i as int, a, b, first, second, was_selected@),
        decreases scores.len() - i,
    {
        let ghost first_before = first;
        let ghost second_before = second;
        let ghost selected_before = was_selected@;
        let slot = scores[i].index;
        if !contains_slot(&was_selected, slot) && hits[i] {
            if first.is_none() {
                first = Some(slot);
                was_selected.push(slot);
            } else if second.is_none() {
                second = Some(slot);
                was_selected.push(slot);
            }
        }
        proof {
            let positions = lemma_pass_step(
                scores@,
                hits@,
                i as int,
                a,
                b,
                first_before,
                second_before,
                selected_before,
                first,
                second,
                was_selected@,
            );
            a = positions.0;
            b = positions.1;
        }
        i += 1;
    }
    settle(scores, first, second, &was_selected, Ghost(hits@), Ghost(a), Ghost(b))
}

/// Selects two parents from the ranking and returns their slots.
///
/// The entries are tried once, from the fittest down: an entry whose slot has
/// not been chosen yet is accepted with its own probability, into the first
/// parent slot that is still empty. The parents that the pass leaves open are
/// the best-ranked entries not chosen.
pub fn select_parents(scores: &Vec<Score>, source: &mut RandomSource) -> (parents: (usize, usize))
    requires
        scores.len() >= 2,
        scores[0].index != scores[1].index,
        forall|k: int| 0 <= k < scores.len() ==> (#[trigger] scores[k]).probability.valid(),
    ensures
        exists|hits: Seq<bool>| #[trigger]
            possible_outcomes(scores@, hits) && parents == spec_parents(scores@, hits),
        parents.0 != parents.1,
        ranks_slot(scores@, parents.0 as int),
        ranks_slot(scores@, parents.1 as int),
        (forall|k: int| 0 <= k < scores.len() ==> (#[trigger] scores[k]).probability.never())
            ==> parents == (scores[0].index, scores[1].index),
        (forall|k: int| 0 <= k < scores.len() ==> (#[trigger] scores[k]).probability.always())
            ==> parents == (scores[0].index, scores[1].index),
{
    let mut first: Option<usize> = None;
    let mut second: Option<usize> = None;
    let mut was_selected: Vec<usize> = Vec::new();
    let ghost mut hits: Seq<bool> = Seq::empty();
    let ghost mut a: int = 0;
    let ghost mut b: int = 0;
    let mut i: usize = 0;
    while i < scores.len()
        invariant
            hits.len() == i,
            forall|k: int| 0 <= k < scores.len() ==> (#[trigger] scores[k]).probability.valid(),
            forall|k: int|
                0 <= k < i ==> ((#[trigger] scores[k]).probability.never() ==> !hits[k]) && (
                scores[k].probability.always() ==> hits[k]),
            pass_state(scores@, hits, i as int, a, b, first, second, was_selected@),
        decreases scores.len() - i,
    {
        let ghost first_before = first;
        let ghost second_before = second;
        let ghost selected_before = was_selected@;
        let ghost hits_before = hits;
        let score = scores[i];
        if contains_slot(&was_selected, score.index) {
            proof {
                hits = hits.push(score.probability.always());
            }
        } else {
            let hit = probability(source, score.probability);
            proof {
                hits = hits.push(hit);
            }
            if hit {
                if first.is_none() {
                    first = Some(score.index);
                    was_selected.push(score.index);
                } else if second.is_none() {
                    second = Some(score.index);
                    was_selected.push(score.index);
                }
            }
        }
        proof {
            assert(forall|j: int| 0 <= j < i ==> hits[j] == hits_before[j]);
            assert(pass_state(
                scores@,
                hits,
                i as int,
                a,
                b,
                first_before,
                second_before,
                selected_before,
            ));
            let positions = lemma_pass_step(
                scores@,
                hits,
                i as int,
                a,
                b,
                first_before,
                second_before,
                selected_before,
                first,
                second,
                was_selected@,
            );
            a = positions.0;
            b = positions.1;
        }
        i += 1;
    }
    let parents = settle(scores, first, second, &was_selected, Ghost(hits), Ghost(a), Ghost(b));
    proof {
        assert(possible_outcomes(scores@, hits));
        if forall|k: int| 0 <= k < scores.len() ==> (#[trigger] scores[k]).probability.never() {
            assert forall|j: int| 0 <= j < hits.len() implies !#[trigger] hits[j] by {
                assert(scores[j].probability.never());
            }
            lemma_parents_without_success(scores@, hits);
        }
        if forall|k: int| 0 <= k < scores.len() ==> (#[trigger] scores[k]).probability.always() {
            assert(scores[0].probability.always() && scores[1].probability.always());
            assert(hits[0] && hits[1]);
            let first = scores[0].index;
            let open = acceptable(scores@, hits, seq![first]);
            assert(seq![first][0] == first);
            assert(!open[0]);
            assert(open[1]);
            lemma_first_from_is(hits, 0, 0);
            lemma_first_from_is(open, 1, 1);
        }
    }
    parents
}

} // verus!
