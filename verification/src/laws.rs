//! What holds of the store across its operations, stated over what the store
//! holds and proved from the definitions of the writes and of the tally.

use vstd::prelude::*;
use crate::error::CoreError;
use crate::ident::canonical_text;
use crate::models::{ChoiceView, ExternalRef, InsertablePollView, VoteView};
use crate::msg::surviving;
use crate::seq_facts::{
    lemma_all_same_no_duplicates, lemma_filter_all, lemma_filter_no_duplicates, lemma_filter_then_map,
};
use crate::store::StoreState;
use crate::tally::{
    choice_result, dots_sum, is_ranked, joined, lemma_dots_sum_of_joined,
    lemma_every_choice_is_tallied, lemma_ranked_is_ranked, lemma_ranked_is_stable,
    lemma_unvoted_choice_has_zero, unranked, voter_labels, votes_for, with_total, PollResultView,
};
use crate::validator::{vote_rows, weighty_pairs, ValidBallotView};

verus! {

/// A poll that was created is found under its reference, which no poll
/// carried before and whose text is not empty; its choices are the texts of
/// the request that are not empty, in the order of the request; and whatever
/// the store held before, it still holds.
pub proof fn lemma_created_poll_is_retrievable(
    store: StoreState,
    row: InsertablePollView,
    details: Seq<Seq<char>>,
    now: i64,
)
    requires
        store.wf(),
        store.can_create(row, details),
    ensures
        ({
            let after = store.created(row, details, now);
            let poll = store.next_poll(row, now);
            &&& after.wf()
            &&& !store.has_ref(row.uuid)
            &&& canonical_text(row.uuid).len() > 0
            &&& after.has_ref(row.uuid)
            &&& after.poll_with_ref(row.uuid) == poll
            &&& after.choices_of(poll.id).map_values(|c: ChoiceView| c.details) == surviving(
                details,
            )
            &&& after.polls.take(store.polls.len() as int) == store.polls
            &&& after.choices.take(store.choices.len() as int) == store.choices
            &&& after.votes == store.votes
        }),
{
    let after = store.created(row, details, now);
    let poll = store.next_poll(row, now);
    let kept = surviving(details);
    let added = store.next_choices(kept, now);
    let owned = |c: ChoiceView| c.poll_id == poll.id;
    assert forall|k: int| 0 <= k < added.len() implies (#[trigger] added[k]).details.len() > 0 by {
        details.lemma_filter_pred(|d: Seq<char>| d.len() > 0, k);
    }
    assert forall|a: int, b: int| 0 <= a < b < after.polls.len() implies (
    #[trigger] after.polls[a]).uuid != (#[trigger] after.polls[b]).uuid by {
        if b == store.polls.len() {
            assert(store.polls[a].uuid != row.uuid);
        }
    }
    assert(after.wf());
    let at = store.polls.len() as int;
    assert(after.polls[at].uuid == row.uuid);
    let chosen = choose|i: int| 0 <= i < after.polls.len() && (#[trigger] after.polls[i]).uuid
        == row.uuid;
    assert(chosen == at);
    Seq::filter_distributes_over_add(store.choices, added, owned);
    assert(store.choices.all(|c: ChoiceView| !owned(c)));
    store.choices.lemma_all_neg_filter_empty(owned);
    lemma_filter_all(added, owned);
    assert(store.choices.filter(owned) + added =~= added);
    assert(added.map_values(|c: ChoiceView| c.details) =~= kept);
    assert(after.polls.take(store.polls.len() as int) =~= store.polls);
    assert(after.choices.take(store.choices.len() as int) =~= store.choices);
}

/// A ballot that was recorded added one vote for each of its pairs that
/// carries weight and no other: each new vote is for the poll, under the
/// voter's label, with the dots that the ballot gives its choice. What the
/// store held before, it still holds.
pub proof fn lemma_recorded_ballot_adds_its_votes(
    before: StoreState,
    after: StoreState,
    poll_id: i32,
    voter: Seq<char>,
    choices: Map<i32, i32>,
    now: i64,
)
    requires
        before.wf(),
        before.has_room_for_ballot(choices),
        before.records_ballot(after, poll_id, voter, choices, now),
    ensures
        after.polls == before.polls,
        after.choices == before.choices,
        after.votes.len() == before.votes.len() + weighty_pairs(choices).len(),
        after.votes.take(before.votes.len() as int) == before.votes,
        forall|k: int|
            before.votes.len() <= k < after.votes.len() ==> {
                let v = #[trigger] after.votes[k];
                &&& v.id == k + 1
                &&& v.poll_id == poll_id
                &&& v.voter == voter
                &&& v.created_at == now
                &&& v.dots != 0
                &&& choices.contains_key(v.choice_id)
                &&& choices[v.choice_id] == v.dots
            },
        forall|c: i32|
            choices.contains_key(c) && choices[c] != 0 ==> exists|k: int|
                before.votes.len() <= k < after.votes.len() && (#[trigger] after.votes[k]).choice_id
                    == c,
        forall|j: int, k: int|
            before.votes.len() <= j < k < after.votes.len() ==> (#[trigger] after.votes[j]).choice_id
                != (#[trigger] after.votes[k]).choice_id,
{
    let entries = choose|entries: Seq<(i32, i32)>|
        {
            &&& entries.no_duplicates()
            &&& entries.to_set() == weighty_pairs(choices)
            &&& after == #[trigger] before.recorded(
                vote_rows(poll_id, ValidBallotView { voter, entries }),
                now,
            )
        };
    let rows = vote_rows(poll_id, ValidBallotView { voter, entries });
    let added = before.next_votes(rows, now);
    let n = before.votes.len() as int;
    entries.unique_seq_to_set();
    assert(after.votes.take(n) =~= before.votes);
    assert forall|k: int| n <= k < after.votes.len() implies {
        let v = #[trigger] after.votes[k];
        &&& v.id == k + 1
        &&& v.poll_id == poll_id
        &&& v.voter == voter
        &&& v.created_at == now
        &&& v.dots != 0
        &&& choices.contains_key(v.choice_id)
        &&& choices[v.choice_id] == v.dots
    } by {
        assert(after.votes[k] == added[k - n]);
        assert(entries.to_set().contains(entries[k - n]));
    }
    assert forall|c: i32| choices.contains_key(c) && choices[c] != 0 implies exists|k: int|
        n <= k < after.votes.len() && (#[trigger] after.votes[k]).choice_id == c by {
        assert(weighty_pairs(choices).contains((c, choices[c])));
        assert(entries.to_set().contains((c, choices[c])));
        let i = choose|i: int| 0 <= i < entries.len() && entries[i] == (c, choices[c]);
        assert(after.votes[n + i] == added[i]);
    }
    assert forall|j: int, k: int| n <= j < k < after.votes.len() implies (
    #[trigger] after.votes[j]).choice_id != (#[trigger] after.votes[k]).choice_id by {
        assert(after.votes[j] == added[j - n]);
        assert(after.votes[k] == added[k - n]);
        assert(entries.to_set().contains(entries[j - n]));
        assert(entries.to_set().contains(entries[k - n]));
        assert(entries[j - n] != entries[k - n]);
    }
}

/// What the votes of one ballot give to one choice, however they are ordered:
/// where the ballot has a pair with weight for the choice, one vote with the
/// dots of that pair under the voter's label, and else nothing.
proof fn lemma_ballot_gives_choice_once(
    store: StoreState,
    poll_id: i32,
    voter: Seq<char>,
    entries: Seq<(i32, i32)>,
    choices: Map<i32, i32>,
    now: i64,
    choice: ChoiceView,
)
    requires
        entries.no_duplicates(),
        entries.to_set() == weighty_pairs(choices),
    ensures
        ({
            let added = store.next_votes(vote_rows(poll_id, ValidBallotView { voter, entries }), now);
            let mine = votes_for(added, choice.poll_id, choice.id);
            let given = choice.poll_id == poll_id && choices.contains_key(choice.id)
                && choices[choice.id] != 0;
            &&& dots_sum(mine) == if given { choices[choice.id] as int } else { 0 }
            &&& voter_labels(mine) == if given { seq![voter] } else { Seq::<Seq<char>>::empty() }
        }),
{
    let added = store.next_votes(vote_rows(poll_id, ValidBallotView { voter, entries }), now);
    let counted = |v: VoteView| v.poll_id == choice.poll_id && v.choice_id == choice.id;
    let weighty = |v: VoteView| v.dots != 0;
    let mine = added.filter(counted);
    let given = choice.poll_id == poll_id && choices.contains_key(choice.id) && choices[choice.id]
        != 0;
    let pair_of = |v: VoteView| (v.choice_id, v.dots);
    let for_choice = |e: (i32, i32)| choice.poll_id == poll_id && e.0 == choice.id;
    let wanted = (choice.id, choices[choice.id]);
    assert(added.map_values(pair_of) =~= entries);
    assert forall|v: VoteView| #[trigger] counted(v) == for_choice(pair_of(v)) || !added.contains(
        v,
    ) by {
        if added.contains(v) {
            let i = choose|i: int| 0 <= i < added.len() && added[i] == v;
            assert(v.poll_id == poll_id);
        }
    }
    let counted_here = |v: VoteView| for_choice(pair_of(v));
    assert(added.filter(counted) == added.filter(counted_here)) by {
        lemma_filters_agree_on_members(added, counted, counted_here);
    }
    lemma_filter_then_map(added, pair_of, counted_here, for_choice);
    let kept = entries.filter(for_choice);
    assert(mine.map_values(pair_of) == kept);
    lemma_filter_no_duplicates(entries, for_choice);
    assert forall|i: int| 0 <= i < kept.len() implies #[trigger] kept[i] == wanted by {
        entries.lemma_filter_pred(for_choice, i);
        assert(kept.contains(kept[i]));
        entries.lemma_filter_contains_rev(for_choice, kept[i]);
        assert(entries.to_set().contains(kept[i]));
    }
    lemma_all_same_no_duplicates(kept, wanted);
    assert forall|i: int| 0 <= i < mine.len() implies (#[trigger] mine[i]).voter == voter
        && mine[i].dots != 0 by {
        assert(mine.contains(mine[i]));
        added.lemma_filter_contains_rev(counted, mine[i]);
        let at = choose|at: int| 0 <= at < added.len() && added[at] == mine[i];
        assert(entries.to_set().contains(entries[at]));
    }
    if given {
        assert(weighty_pairs(choices).contains(wanted));
        assert(entries.to_set().contains(wanted));
        let at = choose|at: int| 0 <= at < entries.len() && entries[at] == wanted;
        entries.lemma_filter_contains(for_choice, at);
        assert(kept.len() == 1);
        assert(mine.len() == 1);
        assert(pair_of(mine[0]) == kept[0]);
        assert(mine.drop_last() =~= Seq::<VoteView>::empty());
        assert(dots_sum(mine.drop_last()) == 0);
        lemma_filter_all(mine, weighty);
        assert(mine.map_values(|v: VoteView| v.voter) =~= seq![voter]);
    } else {
        if kept.len() > 0 {
            assert(kept.contains(kept[0]));
            entries.lemma_filter_contains_rev(for_choice, kept[0]);
            entries.lemma_filter_pred(for_choice, 0);
            assert(entries.to_set().contains(kept[0]));
        }
        assert(mine.len() == 0);
        assert(mine =~= Seq::<VoteView>::empty());
        reveal(Seq::filter);
        assert(mine.filter(weighty) =~= Seq::<VoteView>::empty());
        assert(voter_labels(mine) =~= Seq::<Seq<char>>::empty());
    }
}

/// Two filters that agree on the elements of a sequence keep the same of it.
proof fn lemma_filters_agree_on_members<A>(
    s: Seq<A>,
    first: spec_fn(A) -> bool,
    second: spec_fn(A) -> bool,
)
    requires
        forall|x: A| #[trigger] first(x) == second(x) || !s.contains(x),
    ensures
        s.filter(first) == s.filter(second),
    decreases s.len(),
{
    reveal(Seq::filter);
    if s.len() > 0 {
        let rest = s.drop_last();
        assert forall|x: A| #[trigger] first(x) == second(x) || !rest.contains(x) by {
            if rest.contains(x) {
                let i = choose|i: int| 0 <= i < rest.len() && rest[i] == x;
                assert(s[i] == x);
            }
        }
        lemma_filters_agree_on_members(rest, first, second);
        assert(s.contains(s.last()));
    }
}

/// Whatever the order in which the votes of a ballot were recorded, the
/// results of every poll are the same.
pub proof fn lemma_results_ignore_ballot_order(
    before: StoreState,
    first: StoreState,
    second: StoreState,
    poll_id: i32,
    voter: Seq<char>,
    choices: Map<i32, i32>,
    now: i64,
    r: ExternalRef,
)
    requires
        before.records_ballot(first, poll_id, voter, choices, now),
        before.records_ballot(second, poll_id, voter, choices, now),
    ensures
        first.results_of(r) == second.results_of(r),
{
    let one = choose|entries: Seq<(i32, i32)>|
        {
            &&& entries.no_duplicates()
            &&& entries.to_set() == weighty_pairs(choices)
            &&& first == #[trigger] before.recorded(
                vote_rows(poll_id, ValidBallotView { voter, entries }),
                now,
            )
        };
    let other = choose|entries: Seq<(i32, i32)>|
        {
            &&& entries.no_duplicates()
            &&& entries.to_set() == weighty_pairs(choices)
            &&& second == #[trigger] before.recorded(
                vote_rows(poll_id, ValidBallotView { voter, entries }),
                now,
            )
        };
    let added_one = before.next_votes(vote_rows(poll_id, ValidBallotView { voter, entries: one }), now);
    let added_other = before.next_votes(
        vote_rows(poll_id, ValidBallotView { voter, entries: other }),
        now,
    );
    let id = first.poll_with_ref(r).id;
    assert(second.poll_with_ref(r).id == id);
    assert forall|choice: ChoiceView| #[trigger]
        choice_result(choice, first.votes) == choice_result(choice, second.votes) by {
        lemma_ballot_gives_choice_once(before, poll_id, voter, one, choices, now, choice);
        lemma_ballot_gives_choice_once(before, poll_id, voter, other, choices, now, choice);
        lemma_result_of_joined_votes(choice, before.votes, added_one);
        lemma_result_of_joined_votes(choice, before.votes, added_other);
    }
    assert(unranked(id, first.choices, first.votes) =~= unranked(id, second.choices, second.votes));
}

/// The result of a choice after more votes were recorded, from what the
/// earlier and the later votes give it.
proof fn lemma_result_of_joined_votes(choice: ChoiceView, earlier: Seq<VoteView>, later: Seq<VoteView>)
    ensures
        choice_result(choice, earlier + later).total == dots_sum(
            votes_for(earlier, choice.poll_id, choice.id),
        ) + dots_sum(votes_for(later, choice.poll_id, choice.id)),
        choice_result(choice, earlier + later).voters == joined(
            voter_labels(votes_for(earlier, choice.poll_id, choice.id)) + voter_labels(
                votes_for(later, choice.poll_id, choice.id),
            ),
        ),
{
    let counted = |v: VoteView| v.poll_id == choice.poll_id && v.choice_id == choice.id;
    let weighty = |v: VoteView| v.dots != 0;
    let one = earlier.filter(counted);
    let two = later.filter(counted);
    Seq::filter_distributes_over_add(earlier, later, counted);
    lemma_dots_sum_of_joined(one, two);
    Seq::filter_distributes_over_add(one, two, weighty);
    assert((one.filter(weighty) + two.filter(weighty)).map_values(|v: VoteView| v.voter)
        =~= one.filter(weighty).map_values(|v: VoteView| v.voter) + two.filter(weighty).map_values(
        |v: VoteView| v.voter,
    ));
}

/// The results of a poll hold one entry for each of its choices, also for a
/// choice that no vote names: that one has the total 0 and no voters.
pub proof fn lemma_results_cover_every_choice(store: StoreState, r: ExternalRef, k: int)
    requires
        store.wf(),
        store.has_ref(r),
        0 <= k < store.choices.len(),
        store.choices[k].poll_id == store.poll_with_ref(r).id,
    ensures
        store.results_of(r).len() == store.choices_of(store.poll_with_ref(r).id).len(),
        store.results_of(r).contains(choice_result(store.choices[k], store.votes)),
        (forall|i: int|
            0 <= i < store.votes.len() ==> (#[trigger] store.votes[i]).choice_id
                != store.choices[k].id) ==> {
            &&& choice_result(store.choices[k], store.votes).total == 0
            &&& choice_result(store.choices[k], store.votes).voters == Seq::<char>::empty()
        },
{
    let poll_id = store.poll_with_ref(r).id;
    lemma_every_choice_is_tallied(poll_id, store.choices, store.votes, k);
    if forall|i: int|
        0 <= i < store.votes.len() ==> (#[trigger] store.votes[i]).choice_id
            != store.choices[k].id {
        lemma_unvoted_choice_has_zero(store.choices[k], store.votes);
    }
}

/// The results of a poll are ranked: the totals never rise from one entry to
/// the next, and entries with the same total stand in the order of their choices.
pub proof fn lemma_results_are_ranked(store: StoreState, r: ExternalRef, total: int)
    ensures
        is_ranked(store.results_of(r)),
        with_total(store.results_of(r), total) == with_total(
            unranked(store.poll_with_ref(r).id, store.choices, store.votes),
            total,
        ),
{
    let rows = unranked(store.poll_with_ref(r).id, store.choices, store.votes);
    lemma_ranked_is_ranked(rows);
    lemma_ranked_is_stable(rows, total);
}

/// Reading the results twice from a store that was not written to gives the
/// same answer twice.
pub proof fn lemma_results_repeat(
    store: StoreState,
    r: ExternalRef,
    first: Result<Seq<PollResultView>, CoreError>,
    second: Result<Seq<PollResultView>, CoreError>,
)
    requires
        store.answers_results(r, first),
        store.answers_results(r, second),
    ensures
        first == second,
{
}

} // verus!
