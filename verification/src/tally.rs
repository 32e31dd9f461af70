//! The tally engine: the recorded votes of a poll become one result for each
//! of its choices, and the results are ranked by total, highest first.

use vstd::prelude::*;
use crate::models::{max_rows, views, Choice, ChoiceView, Poll, Vote, VoteView};
use crate::seq_facts::lemma_filter_take_next;

verus! {

/// What a poll's results say of one choice.
#[derive(Debug, PartialEq, Eq)]
pub struct PollResult {
    /// The text of the choice.
    pub details: String,
    /// The sum of the dots given to the choice.
    pub total: i64,
    /// The labels of those who gave it dots, in the order their votes were
    /// recorded, separated by a comma and a space.
    pub voters: String,
}

pub struct PollResultView {
    pub details: Seq<char>,
    pub total: int,
    pub voters: Seq<char>,
}

impl View for PollResult {
    type V = PollResultView;

    open spec fn view(&self) -> PollResultView {
        PollResultView { details: self.details@, total: self.total as int, voters: self.voters@ }
    }
}

impl Clone for PollResult {
    fn clone(&self) -> (copy: Self)
        ensures
            copy == *self,
    {
        PollResult {
            details: self.details.clone(),
            total: self.total,
            voters: self.voters.clone(),
        }
    }
}

/// What stands between two voters' labels.
pub open spec fn separator() -> Seq<char> {
    seq![',', ' ']
}

/// The votes among `votes` that were given to choice `choice_id` of poll `poll_id`.
pub open spec fn votes_for(votes: Seq<VoteView>, poll_id: i32, choice_id: i32) -> Seq<VoteView> {
    votes.filter(|v: VoteView| v.poll_id == poll_id && v.choice_id == choice_id)
}

/// The sum of the dots of `votes`.
pub open spec fn dots_sum(votes: Seq<VoteView>) -> int
    decreases votes.len(),
{
    if votes.len() == 0 {
        0
    } else {
        dots_sum(votes.drop_last()) + votes.last().dots
    }
}

/// The labels of the voters of `votes` that carry weight, in order.
pub open spec fn voter_labels(votes: Seq<VoteView>) -> Seq<Seq<char>> {
    votes.filter(|v: VoteView| v.dots != 0).map_values(|v: VoteView| v.voter)
}

/// The labels written one after another with the separator between them.
pub open spec fn joined(labels: Seq<Seq<char>>) -> Seq<char>
    decreases labels.len(),
{
    if labels.len() == 0 {
        Seq::empty()
    } else if labels.len() == 1 {
        labels[0]
    } else {
        joined(labels.drop_last()) + separator() + labels.last()
    }
}

/// The result of one choice, given all the votes there are.
pub open spec fn choice_result(choice: ChoiceView, votes: Seq<VoteView>) -> PollResultView {
    let mine = votes_for(votes, choice.poll_id, choice.id);
    PollResultView {
        details: choice.details,
        total: dots_sum(mine),
        voters: joined(voter_labels(mine)),
    }
}

/// The choices among `choices` that belong to poll `poll_id`, in order.
pub open spec fn choices_of(choices: Seq<ChoiceView>, poll_id: i32) -> Seq<ChoiceView> {
    choices.filter(|c: ChoiceView| c.poll_id == poll_id)
}

/// One result for each choice of the poll, in the order of the choices.
pub open spec fn unranked(poll_id: i32, choices: Seq<ChoiceView>, votes: Seq<VoteView>) -> Seq<
    PollResultView,
> {
    choices_of(choices, poll_id).map_values(|c: ChoiceView| choice_result(c, votes))
}

/// Where a result with this total goes into `ranking`: behind the last result
/// whose total is no smaller.
pub open spec fn rank_position(ranking: Seq<PollResultView>, total: int) -> int
    decreases ranking.len(),
{
    if ranking.len() == 0 {
        0
    } else if ranking.last().total >= total {
        ranking.len() as int
    } else {
        rank_position(ranking.drop_last(), total)
    }
}

/// The results ranked by total, highest first; of two results with the same
/// total the one that came first in `results` stays first.
pub open spec fn ranked(results: Seq<PollResultView>) -> Seq<PollResultView>
    decreases results.len(),
{
    if results.len() == 0 {
        Seq::empty()
    } else {
        let before = ranked(results.drop_last());
        before.insert(rank_position(before, results.last().total), results.last())
    }
}

/// The ranked results of poll `poll_id`.
pub open spec fn tally_of(poll_id: i32, choices: Seq<ChoiceView>, votes: Seq<VoteView>) -> Seq<
    PollResultView,
> {
    ranked(unranked(poll_id, choices, votes))
}

/// The sum of dots is bounded by the number of votes.
pub proof fn lemma_dots_sum_bounds(votes: Seq<VoteView>)
    ensures
        -0x8000_0000 * votes.len() <= dots_sum(votes) <= 0x7fff_ffff * votes.len(),
    decreases votes.len(),
{
    if votes.len() > 0 {
        lemma_dots_sum_bounds(votes.drop_last());
    }
}

/// The result of one choice: the sum of the dots that `votes` give it, and the
/// labels of those who gave them.
pub fn tally_choice(choice: &Choice, votes: &Vec<Vote>) -> (result: PollResult)
    requires
        votes@.len() <= max_rows(),
    ensures
        result@ == choice_result(choice@, views(votes@)),
{
    let ghost all = views(votes@);
    let ghost counted = |v: VoteView| v.poll_id == choice.poll_id && v.choice_id == choice.id;
    let ghost weighty = |v: VoteView| v.dots != 0;
    let ghost by_voter = |v: VoteView| v.voter;
    let mut total: i64 = 0;
    let mut voters = String::new();
    let mut named: bool = false;
    let mut i: usize = 0;
    proof {
        reveal(Seq::filter);
        assert(all.take(0).filter(counted) =~= Seq::<VoteView>::empty());
        assert(Seq::<VoteView>::empty().filter(weighty) =~= Seq::<VoteView>::empty());
    }
    while i < votes.len()
        invariant
            i <= votes@.len() <= max_rows(),
            all == views(votes@),
            counted == (|v: VoteView| v.poll_id == choice.poll_id && v.choice_id == choice.id),
            weighty == (|v: VoteView| v.dots != 0),
            by_voter == (|v: VoteView| v.voter),
            all.take(i as int).filter(counted).len() <= i,
            total == dots_sum(all.take(i as int).filter(counted)),
            named == (all.take(i as int).filter(counted).filter(weighty).len() > 0),
            voters@ == joined(all.take(i as int).filter(counted).filter(weighty).map_values(by_voter)),
        decreases votes@.len() - i,
    {
        let vote = &votes[i];
        let ghost mine = all.take(i as int).filter(counted);
        proof {
            lemma_filter_take_next(all, counted, i as int);
            assert(all[i as int] == vote@);
        }
        if vote.poll_id == choice.poll_id && vote.choice_id == choice.id {
            proof {
                lemma_dots_sum_bounds(mine);
                assert(mine.push(vote@).drop_last() =~= mine);
                mine.lemma_filter_push(vote@, weighty);
                assert(-0x8000_0000 * mine.len() >= -0x8000_0000 * 0x7fff_ffff) by (nonlinear_arith)
                    requires
                        0 <= mine.len() <= 0x7fff_ffff,
                ;
                assert(0x7fff_ffff * mine.len() <= 0x7fff_ffff * 0x7fff_ffff) by (nonlinear_arith)
                    requires
                        0 <= mine.len() <= 0x7fff_ffff,
                ;
            }
            total = total + vote.dots as i64;
            if vote.dots != 0 {
                let ghost labels = mine.filter(weighty).map_values(by_voter);
                proof {
                    assert(mine.filter(weighty).push(vote@).map_values(by_voter) =~= labels.push(
                        vote@.voter,
                    ));
                    assert(labels.push(vote@.voter).drop_last() =~= labels);
                    reveal_strlit(", ");
                    assert(", "@ =~= separator());
                }
                if named {
                    voters.append(", ");
                }
                voters.append(vote.voter.as_str());
                named = true;
            }
        }
        i = i + 1;
    }
    proof {
        assert(all.take(i as int) =~= all);
    }
    PollResult { details: choice.details.clone(), total, voters }
}


/// Where a result with this total goes into the ranking.
fn position_for(ranking: &Vec<PollResult>, total: i64) -> (position: usize)
    ensures
        position <= ranking@.len(),
        position == rank_position(views(ranking@), total as int),
{
    let ghost all = views(ranking@);
    let mut position: usize = ranking.len();
    proof {
        assert(all.take(position as int) =~= all);
    }
    while position > 0 && ranking[position - 1].total < total
        invariant
            position <= ranking@.len(),
            all == views(ranking@),
            rank_position(all, total as int) == rank_position(
                all.take(position as int),
                total as int,
            ),
        decreases position,
    {
        proof {
            assert(all.take(position as int).drop_last() =~= all.take(position - 1));
            assert(all.take(position as int).last() == ranking@[position - 1]@);
        }
        position = position - 1;
    }
    proof {
        if position > 0 {
            assert(all.take(position as int).last() == ranking@[position - 1]@);
        }
    }
    position
}

/// The results of a poll: one for each choice among `choices` that is the
/// poll's, with the dots that `votes` give it, ranked by total.
pub fn tally(poll: &Poll, choices: &Vec<Choice>, votes: &Vec<Vote>) -> (results: Vec<PollResult>)
    requires
        votes@.len() <= max_rows(),
    ensures
        views(results@) == tally_of(poll.id, views(choices@), views(votes@)),
{
    let ghost all = views(choices@);
    let ghost cast = views(votes@);
    let ghost owned = |c: ChoiceView| c.poll_id == poll.id;
    let ghost result_of = |c: ChoiceView| choice_result(c, cast);
    let mut results: Vec<PollResult> = Vec::new();
    let mut i: usize = 0;
    proof {
        reveal(Seq::filter);
        assert(all.take(0).filter(owned) =~= Seq::<ChoiceView>::empty());
        assert(views(results@) =~= Seq::<PollResultView>::empty());
        assert(Seq::<ChoiceView>::empty().map_values(result_of) =~= Seq::<PollResultView>::empty());
    }
    while i < choices.len()
        invariant
            i <= choices@.len(),
            votes@.len() <= max_rows(),
            all == views(choices@),
            cast == views(votes@),
            owned == (|c: ChoiceView| c.poll_id == poll.id),
            result_of == (|c: ChoiceView| choice_result(c, cast)),
            views(results@) == ranked(all.take(i as int).filter(owned).map_values(result_of)),
        decreases choices@.len() - i,
    {
        let choice = &choices[i];
        proof {
            lemma_filter_take_next(all, owned, i as int);
            assert(all[i as int] == choice@);
        }
        if choice.poll_id == poll.id {
            let result = tally_choice(choice, votes);
            let position = position_for(&results, result.total);
            let ghost before = views(results@);
            let ghost rows = all.take(i as int).filter(owned).map_values(result_of);
            results.insert(position, result);
            proof {
                assert(views(results@) =~= before.insert(position as int, result@));
                assert(all.take(i as int).filter(owned).push(choice@).map_values(result_of)
                    =~= rows.push(result@));
                assert(rows.push(result@).drop_last() =~= rows);
            }
        }
        i = i + 1;
    }
    proof {
        assert(all.take(i as int) =~= all);
    }
    results
}


/// Whether the totals never rise from one result to the next.
pub open spec fn is_ranked(results: Seq<PollResultView>) -> bool {
    forall|i: int, j: int| 0 <= i < j < results.len() ==> results[i].total >= results[j].total
}

/// The results with total `total`, in order.
pub open spec fn with_total(results: Seq<PollResultView>, total: int) -> Seq<PollResultView> {
    results.filter(|r: PollResultView| r.total == total)
}

/// A rank position lies in the ranking or at its end; every result from it on
/// has a smaller total, and the result just before it has not.
pub proof fn lemma_rank_position(ranking: Seq<PollResultView>, total: int)
    ensures
        0 <= rank_position(ranking, total) <= ranking.len(),
        forall|k: int|
            rank_position(ranking, total) <= k < ranking.len() ==> ranking[k].total < total,
        rank_position(ranking, total) > 0 ==> ranking[rank_position(ranking, total) - 1].total
            >= total,
    decreases ranking.len(),
{
    if ranking.len() > 0 && ranking.last().total < total {
        let rest = ranking.drop_last();
        lemma_rank_position(rest, total);
        assert forall|k: int| rank_position(ranking, total) <= k < ranking.len() implies ranking[k].total
            < total by {
            if k < rest.len() {
                assert(ranking[k] == rest[k]);
            }
        }
        if rank_position(ranking, total) > 0 {
            assert(ranking[rank_position(ranking, total) - 1] == rest[rank_position(rest, total)
                - 1]);
        }
    }
}

/// Ranking keeps every result and adds none.
pub proof fn lemma_ranked_keeps_all(results: Seq<PollResultView>)
    ensures
        ranked(results).len() == results.len(),
        ranked(results).to_multiset() == results.to_multiset(),
    decreases results.len(),
{
    broadcast use vstd::seq_lib::group_to_multiset_ensures;

    if results.len() == 0 {
        assert(ranked(results) =~= results);
    } else {
        let rest = results.drop_last();
        let before = ranked(rest);
        let position = rank_position(before, results.last().total);
        lemma_ranked_keeps_all(rest);
        lemma_rank_position(before, results.last().total);
        before.insert_ensures(position, results.last());
        vstd::seq_lib::to_multiset_insert(before, position, results.last());
        assert(rest.push(results.last()) =~= results);
        vstd::seq_lib::to_multiset_build(rest, results.last());
    }
}

/// In a ranking the totals never rise.
pub proof fn lemma_ranked_is_ranked(results: Seq<PollResultView>)
    ensures
        is_ranked(ranked(results)),
    decreases results.len(),
{
    if results.len() > 0 {
        let rest = results.drop_last();
        let before = ranked(rest);
        let last = results.last();
        let position = rank_position(before, last.total);
        lemma_ranked_is_ranked(rest);
        lemma_rank_position(before, last.total);
        before.insert_ensures(position, last);
        let after = before.insert(position, last);
        assert forall|i: int, j: int| 0 <= i < j < after.len() implies after[i].total
            >= after[j].total by {
            if j < position {
                assert(after[i] == before[i] && after[j] == before[j]);
            } else if j == position {
                assert(after[i] == before[i]);
                assert(before[i].total >= before[position - 1].total);
            } else if i < position {
                assert(after[i] == before[i] && after[j] == before[j - 1]);
            } else if i == position {
                assert(after[j] == before[j - 1]);
            } else {
                assert(after[i] == before[i - 1] && after[j] == before[j - 1]);
            }
        }
    }
}

/// Ranking is stable: the results that share a total stand in the ranking in
/// the order in which they stood before.
pub proof fn lemma_ranked_is_stable(results: Seq<PollResultView>, total: int)
    ensures
        with_total(ranked(results), total) == with_total(results, total),
    decreases results.len(),
{
    let same = |r: PollResultView| r.total == total;
    if results.len() == 0 {
        assert(ranked(results) =~= results);
    } else {
        let rest = results.drop_last();
        let before = ranked(rest);
        let last = results.last();
        let position = rank_position(before, last.total);
        lemma_ranked_is_stable(rest, total);
        lemma_ranked_is_ranked(rest);
        lemma_rank_position(before, last.total);
        let head = before.take(position);
        let tail = before.skip(position);
        assert(before =~= head + tail);
        assert(before.insert(position, last) =~= head.push(last) + tail);
        Seq::filter_distributes_over_add(head, tail, same);
        Seq::filter_distributes_over_add(head.push(last), tail, same);
        head.lemma_filter_push(last, same);
        assert(rest.push(last) =~= results);
        rest.lemma_filter_push(last, same);
        if last.total == total {
            assert(tail.all(|r: PollResultView| !same(r))) by {
                assert forall|k: int| 0 <= k < tail.len() implies !same(#[trigger] tail[k]) by {
                    assert(tail[k] == before[position + k]);
                }
            }
            tail.lemma_all_neg_filter_empty(same);
            assert(tail.filter(same) =~= Seq::<PollResultView>::empty());
            assert(head.filter(same) + tail.filter(same) =~= head.filter(same));
            assert(head.filter(same).push(last) + tail.filter(same) =~= head.filter(same).push(
                last,
            ));
        }
    }
}

/// Whether `ranking` holds `results` ranked: its totals never rise, and for
/// every total the results that have it stand in `ranking` as they stand in
/// `results`.
pub open spec fn is_ranking_of(ranking: Seq<PollResultView>, results: Seq<PollResultView>) -> bool {
    &&& is_ranked(ranking)
    &&& forall|total: int| #[trigger] with_total(ranking, total) == with_total(results, total)
}

/// What `ranked` makes of results is a ranking of them.
pub proof fn lemma_ranked_is_ranking(results: Seq<PollResultView>)
    ensures
        is_ranking_of(ranked(results), results),
{
    lemma_ranked_is_ranked(results);
    assert forall|total: int| #[trigger]
        with_total(ranked(results), total) == with_total(results, total) by {
        lemma_ranked_is_stable(results, total);
    }
}

/// Two sequences whose totals never rise, and which hold the same results in
/// the same order for every total, are the same sequence.
proof fn lemma_same_groups(first: Seq<PollResultView>, second: Seq<PollResultView>)
    requires
        is_ranked(first),
        is_ranked(second),
        forall|total: int| #[trigger] with_total(first, total) == with_total(second, total),
    ensures
        first == second,
    decreases first.len(),
{
    if first.len() == 0 {
        if second.len() > 0 {
            let same = |r: PollResultView| r.total == second[0].total;
            second.lemma_filter_contains(same, 0);
            first.lemma_filter_len(same);
            assert(with_total(first, second[0].total) == with_total(second, second[0].total));
            assert(first.filter(same).len() == 0);
            assert(second.filter(same).len() > 0);
        }
        assert(first =~= second);
    } else {
        let top = first[0].total;
        let on_top = |r: PollResultView| r.total == top;
        first.lemma_filter_contains(on_top, 0);
        assert(with_total(first, top) == with_total(second, top));
        second.lemma_filter_len(on_top);
        let seen = choose|seen: int|
            0 <= seen < first.filter(on_top).len() && first.filter(on_top)[seen] == first[0];
        assert(second.len() > 0);
        let other = second[0].total;
        let on_other = |r: PollResultView| r.total == other;
        second.lemma_filter_contains(on_other, 0);
        assert(with_total(first, other) == with_total(second, other));
        first.lemma_filter_contains_rev(on_other, second[0]);
        let i = choose|i: int| 0 <= i < first.len() && first[i] == second[0];
        assert(first[i].total <= first[0].total);
        assert(second.filter(on_top).contains(first[0]));
        second.lemma_filter_contains_rev(on_top, first[0]);
        let j = choose|j: int| 0 <= j < second.len() && second[j] == first[0];
        assert(second[j].total <= second[0].total);
        assert(other == top);
        let first_rest = first.drop_first();
        let second_rest = second.drop_first();
        assert(first =~= seq![first[0]] + first_rest);
        assert(second =~= seq![second[0]] + second_rest);
        first_rest.lemma_filter_prepend(first[0], on_top);
        second_rest.lemma_filter_prepend(second[0], on_top);
        assert(first.filter(on_top)[0] == first[0]);
        assert(second.filter(on_top)[0] == second[0]);
        assert(first[0] == second[0]);
        assert forall|total: int| #[trigger]
            with_total(first_rest, total) == with_total(second_rest, total) by {
            let same = |r: PollResultView| r.total == total;
            first_rest.lemma_filter_prepend(first[0], same);
            second_rest.lemma_filter_prepend(second[0], same);
            assert(with_total(first, total) == with_total(second, total));
            if total == top {
                assert(first_rest.filter(same) =~= first.filter(same).drop_first());
                assert(second_rest.filter(same) =~= second.filter(same).drop_first());
            } else {
                assert(first_rest.filter(same) =~= first.filter(same));
                assert(second_rest.filter(same) =~= second.filter(same));
            }
        }
        assert forall|a: int, b: int| 0 <= a < b < first_rest.len() implies first_rest[a].total
            >= first_rest[b].total by {
            assert(first_rest[a] == first[a + 1] && first_rest[b] == first[b + 1]);
        }
        assert forall|a: int, b: int| 0 <= a < b < second_rest.len() implies second_rest[a].total
            >= second_rest[b].total by {
            assert(second_rest[a] == second[a + 1] && second_rest[b] == second[b + 1]);
        }
        lemma_same_groups(first_rest, second_rest);
    }
}

/// Results have one ranking only: whatever ranks them with falling totals
/// and keeps the order among equal totals is what `ranked` makes of them.
pub proof fn lemma_ranking_is_unique(ranking: Seq<PollResultView>, results: Seq<PollResultView>)
    requires
        is_ranking_of(ranking, results),
    ensures
        ranking == ranked(results),
{
    lemma_ranked_is_ranking(results);
    assert forall|total: int| #[trigger]
        with_total(ranking, total) == with_total(ranked(results), total) by {
        assert(with_total(ranking, total) == with_total(results, total));
        assert(with_total(ranked(results), total) == with_total(results, total));
    }
    lemma_same_groups(ranking, ranked(results));
}

/// Every choice of the poll has its result in the tally, whether or not it
/// was given any dots.
pub proof fn lemma_every_choice_is_tallied(
    poll_id: i32,
    choices: Seq<ChoiceView>,
    votes: Seq<VoteView>,
    k: int,
)
    requires
        0 <= k < choices.len(),
        choices[k].poll_id == poll_id,
    ensures
        tally_of(poll_id, choices, votes).len() == choices_of(choices, poll_id).len(),
        tally_of(poll_id, choices, votes).contains(choice_result(choices[k], votes)),
{
    broadcast use vstd::seq_lib::group_to_multiset_ensures;

    let owned = |c: ChoiceView| c.poll_id == poll_id;
    let mine = choices_of(choices, poll_id);
    let rows = unranked(poll_id, choices, votes);
    choices.lemma_filter_contains(owned, k);
    let at = choose|at: int| 0 <= at < mine.len() && mine[at] == choices[k];
    assert(rows[at] == choice_result(choices[k], votes));
    assert(rows.contains(choice_result(choices[k], votes)));
    lemma_ranked_keeps_all(rows);
    vstd::seq_lib::to_multiset_contains(rows, choice_result(choices[k], votes));
    vstd::seq_lib::to_multiset_contains(ranked(rows), choice_result(choices[k], votes));
}

/// The sum of the dots of two runs of votes is the sum of their sums.
pub proof fn lemma_dots_sum_of_joined(first: Seq<VoteView>, second: Seq<VoteView>)
    ensures
        dots_sum(first + second) == dots_sum(first) + dots_sum(second),
    decreases second.len(),
{
    if second.len() == 0 {
        assert(first + second =~= first);
    } else {
        assert((first + second).drop_last() =~= first + second.drop_last());
        lemma_dots_sum_of_joined(first, second.drop_last());
    }
}

/// The total of a choice does not depend on which of two batches of votes was
/// recorded first: either way it is the sum of what each batch gives the choice.
pub proof fn lemma_totals_ignore_order(
    choice: ChoiceView,
    first: Seq<VoteView>,
    second: Seq<VoteView>,
)
    ensures
        choice_result(choice, first + second).total == choice_result(choice, first).total
            + choice_result(choice, second).total,
        choice_result(choice, first + second).total == choice_result(
            choice,
            second + first,
        ).total,
{
    let counted = |v: VoteView| v.poll_id == choice.poll_id && v.choice_id == choice.id;
    Seq::filter_distributes_over_add(first, second, counted);
    Seq::filter_distributes_over_add(second, first, counted);
    lemma_dots_sum_of_joined(first.filter(counted), second.filter(counted));
    lemma_dots_sum_of_joined(second.filter(counted), first.filter(counted));
}

/// A choice that no vote names has the total 0 and no voters.
pub proof fn lemma_unvoted_choice_has_zero(choice: ChoiceView, votes: Seq<VoteView>)
    requires
        forall|i: int|
            0 <= i < votes.len() ==> !(votes[i].poll_id == choice.poll_id && votes[i].choice_id
                == choice.id),
    ensures
        choice_result(choice, votes).total == 0,
        choice_result(choice, votes).voters == Seq::<char>::empty(),
{
    let counted = |v: VoteView| v.poll_id == choice.poll_id && v.choice_id == choice.id;
    assert(votes.all(|v: VoteView| !counted(v)));
    votes.lemma_all_neg_filter_empty(counted);
    let mine = votes_for(votes, choice.poll_id, choice.id);
    assert(mine =~= Seq::<VoteView>::empty());
    reveal(Seq::filter);
    assert(voter_labels(mine) =~= Seq::<Seq<char>>::empty());
}

} // verus!
