//! The poll store: the polls, choices and votes that have been recorded, and
//! the two writes that add to them. A write takes effect whole or not at all.

use std::collections::HashMap;
use vstd::prelude::*;
use crate::error::CoreError;
use crate::ident::is_random_ref;
use crate::models::{
    max_rows, views, Choice, ChoiceView, ExternalRef, InsertablePoll, InsertablePollView, InsertableVote,
    InsertableVoteView, Poll, PollView, Vote, VoteView,
};
use crate::msg::{nonempty_texts, surviving, PollCreateRequest, PollResponse};
use crate::seq_facts::{lemma_filter_nothing, lemma_filter_take_next};
use crate::tally::{choices_of, tally_of, PollResultView};
use crate::validator::{
    ids_of, known_ids, validate, vote_rows, voter_or_default, weighty_pairs, Ballot,
    ValidBallotView,
};

verus! {

/// What a store holds, as mathematical values.
pub struct StoreState {
    pub polls: Seq<PollView>,
    pub choices: Seq<ChoiceView>,
    pub votes: Seq<VoteView>,
    /// The most polls, choices and votes that the store takes.
    pub poll_limit: int,
    pub choice_limit: int,
    pub vote_limit: int,
}

impl StoreState {
    /// What holds of every store: records are numbered from 1 in the order
    /// they were written; no two polls share a reference; a poll has a title
    /// and a choice has a text; every choice belongs to a poll; every vote
    /// carries weight and names a choice of the poll it names.
    pub open spec fn wf(self) -> bool {
        &&& self.polls.len() <= self.poll_limit <= max_rows()
        &&& self.choices.len() <= self.choice_limit <= max_rows()
        &&& self.votes.len() <= self.vote_limit <= max_rows()
        &&& forall|i: int|
            0 <= i < self.polls.len() ==> {
                &&& (#[trigger] self.polls[i]).id == i + 1
                &&& self.polls[i].title.len() > 0
            }
        &&& forall|i: int, j: int|
            0 <= i < j < self.polls.len() ==> (#[trigger] self.polls[i]).uuid != (
            #[trigger] self.polls[j]).uuid
        &&& forall|i: int|
            0 <= i < self.choices.len() ==> {
                &&& (#[trigger] self.choices[i]).id == i + 1
                &&& 1 <= self.choices[i].poll_id <= self.polls.len()
                &&& self.choices[i].details.len() > 0
            }
        &&& forall|i: int|
            0 <= i < self.votes.len() ==> {
                &&& (#[trigger] self.votes[i]).id == i + 1
                &&& self.accepts(self.votes[i].poll_id, self.votes[i].choice_id, self.votes[i].dots)
            }
    }

    /// Whether a vote of `dots` dots for choice `choice_id` of poll `poll_id`
    /// may be stored: it carries weight, and the choice exists and is the poll's.
    pub open spec fn accepts(self, poll_id: i32, choice_id: i32, dots: i32) -> bool {
        &&& dots != 0
        &&& 1 <= choice_id <= self.choices.len()
        &&& self.choices[choice_id - 1].poll_id == poll_id
    }

    /// Whether some poll carries the reference.
    pub open spec fn has_ref(self, r: ExternalRef) -> bool {
        exists|i: int| 0 <= i < self.polls.len() && (#[trigger] self.polls[i]).uuid == r
    }

    /// The poll that carries the reference, where one does.
    pub open spec fn poll_with_ref(self, r: ExternalRef) -> PollView {
        self.polls[choose|i: int| 0 <= i < self.polls.len() && (#[trigger] self.polls[i]).uuid == r]
    }

    /// The choices of poll `poll_id`, in the order they were created.
    pub open spec fn choices_of(self, poll_id: i32) -> Seq<ChoiceView> {
        choices_of(self.choices, poll_id)
    }

    /// The votes recorded for poll `poll_id`, in the order they were recorded.
    pub open spec fn votes_of(self, poll_id: i32) -> Seq<VoteView> {
        self.votes.filter(|v: VoteView| v.poll_id == poll_id)
    }

    /// The poll that `row` becomes when it is stored at time `now`.
    pub open spec fn next_poll(self, row: InsertablePollView, now: i64) -> PollView {
        PollView {
            id: (self.polls.len() + 1) as i32,
            uuid: row.uuid,
            title: row.title,
            created_at: now,
        }
    }

    /// The choices that the texts become when they are stored with the next poll.
    pub open spec fn next_choices(self, details: Seq<Seq<char>>, now: i64) -> Seq<ChoiceView> {
        Seq::new(
            details.len(),
            |i: int|
                ChoiceView {
                    id: (self.choices.len() + 1 + i) as i32,
                    poll_id: (self.polls.len() + 1) as i32,
                    details: details[i],
                    created_at: now,
                },
        )
    }

    /// Whether the store has room for a poll with these choice texts: for the
    /// poll, and for one choice for each text that is not empty.
    pub open spec fn has_room_for_poll(self, details: Seq<Seq<char>>) -> bool {
        &&& self.polls.len() < self.poll_limit
        &&& self.choices.len() + surviving(details).len() <= self.choice_limit
    }

    /// Whether the store takes the poll with these choice texts: the poll has
    /// a title, its reference is new, and there is room.
    pub open spec fn can_create(self, row: InsertablePollView, details: Seq<Seq<char>>) -> bool {
        &&& row.title.len() > 0
        &&& !self.has_ref(row.uuid)
        &&& self.has_room_for_poll(details)
    }

    /// The store after the poll and its choices were stored: one choice for
    /// each text that is not empty, in order.
    pub open spec fn created(self, row: InsertablePollView, details: Seq<Seq<char>>, now: i64)
        -> StoreState {
        StoreState {
            polls: self.polls.push(self.next_poll(row, now)),
            choices: self.choices + self.next_choices(surviving(details), now),
            ..self
        }
    }

    /// The votes that the rows become when they are stored at time `now`.
    pub open spec fn next_votes(self, rows: Seq<InsertableVoteView>, now: i64) -> Seq<VoteView> {
        Seq::new(
            rows.len(),
            |i: int|
                VoteView {
                    id: (self.votes.len() + 1 + i) as i32,
                    poll_id: rows[i].poll_id,
                    choice_id: rows[i].choice_id,
                    voter: rows[i].voter,
                    dots: rows[i].dots,
                    created_at: now,
                },
        )
    }

    /// Whether the store takes the rows: each may be stored, and there is room for all.
    pub open spec fn can_record(self, rows: Seq<InsertableVoteView>) -> bool {
        &&& forall|i: int|
            0 <= i < rows.len() ==> self.accepts(
                (#[trigger] rows[i]).poll_id,
                rows[i].choice_id,
                rows[i].dots,
            )
        &&& self.votes.len() + rows.len() <= self.vote_limit
    }

    /// The store after the rows were stored, in order.
    pub open spec fn recorded(self, rows: Seq<InsertableVoteView>, now: i64) -> StoreState {
        StoreState { votes: self.votes + self.next_votes(rows, now), ..self }
    }

    /// Whether a ballot for poll `poll_id` names only choices of that poll.
    pub open spec fn names_own_choices(self, poll_id: i32, choices: Map<i32, i32>) -> bool {
        choices.dom().subset_of(ids_of(self.choices_of(poll_id)))
    }

    /// Whether the store has room for the votes of a ballot: one for each
    /// pair that carries weight.
    pub open spec fn has_room_for_ballot(self, choices: Map<i32, i32>) -> bool {
        self.votes.len() + weighty_pairs(choices).len() <= self.vote_limit
    }

    /// Whether `after` is this store with the ballot recorded: one more vote
    /// for each pair that carries weight, in some order.
    pub open spec fn records_ballot(
        self,
        after: StoreState,
        poll_id: i32,
        voter: Seq<char>,
        choices: Map<i32, i32>,
        now: i64,
    ) -> bool {
        exists|entries: Seq<(i32, i32)>|
            {
                &&& entries.no_duplicates()
                &&& entries.to_set() == weighty_pairs(choices)
                &&& after == #[trigger] self.recorded(
                    vote_rows(poll_id, ValidBallotView { voter, entries }),
                    now,
                )
            }
    }

    /// The results of the poll that carries the reference.
    pub open spec fn results_of(self, r: ExternalRef) -> Seq<PollResultView> {
        tally_of(self.poll_with_ref(r).id, self.choices, self.votes)
    }

    /// Whether `answer` is what a request for the results of the poll under
    /// `r` is owed: the ranked results, or that there is no such poll.
    pub open spec fn answers_results(
        self,
        r: ExternalRef,
        answer: Result<Seq<PollResultView>, CoreError>,
    ) -> bool {
        match answer {
            Ok(results) => self.has_ref(r) && results == self.results_of(r),
            Err(e) => !self.has_ref(r) && e == CoreError::NotFound,
        }
    }
}

/// The polls, choices and votes that have been recorded.
pub struct PollStore {
    polls: Vec<Poll>,
    choices: Vec<Choice>,
    votes: Vec<Vote>,
    poll_limit: usize,
    choice_limit: usize,
    vote_limit: usize,
}

impl View for PollStore {
    type V = StoreState;

    closed spec fn view(&self) -> StoreState {
        StoreState {
            polls: views(self.polls@),
            choices: views(self.choices@),
            votes: views(self.votes@),
            poll_limit: self.poll_limit as int,
            choice_limit: self.choice_limit as int,
            vote_limit: self.vote_limit as int,
        }
    }
}

impl PollStore {
    #[verifier::type_invariant]
    closed spec fn inv(self) -> bool {
        self@.wf()
    }

    /// An empty store that takes as many rows as there are keys.
    pub fn new() -> (store: PollStore)
        ensures
            store@.wf(),
            store@.polls.len() == 0,
            store@.choices.len() == 0,
            store@.votes.len() == 0,
            store@.poll_limit == max_rows(),
            store@.choice_limit == max_rows(),
            store@.vote_limit == max_rows(),
    {
        PollStore::with_limits(0x7fff_ffff, 0x7fff_ffff, 0x7fff_ffff)
    }

    /// An empty store that takes at most so many polls, choices and votes,
    /// and never more than there are keys.
    pub fn with_limits(polls: usize, choices: usize, votes: usize) -> (store: PollStore)
        ensures
            store@.wf(),
            store@.polls.len() == 0,
            store@.choices.len() == 0,
            store@.votes.len() == 0,
            store@.poll_limit == if polls <= max_rows() { polls as int } else { max_rows() },
            store@.choice_limit == if choices <= max_rows() { choices as int } else { max_rows() },
            store@.vote_limit == if votes <= max_rows() { votes as int } else { max_rows() },
    {
        let store = PollStore {
            polls: Vec::new(),
            choices: Vec::new(),
            votes: Vec::new(),
            poll_limit: if polls <= 0x7fff_ffff { polls } else { 0x7fff_ffff },
            choice_limit: if choices <= 0x7fff_ffff { choices } else { 0x7fff_ffff },
            vote_limit: if votes <= 0x7fff_ffff { votes } else { 0x7fff_ffff },
        };
        store
    }

    /// The number of polls in the store.
    pub fn poll_count(&self) -> (n: usize)
        ensures
            n == self@.polls.len(),
    {
        self.polls.len()
    }

    /// The number of choices in the store, of all polls together.
    pub fn choice_count(&self) -> (n: usize)
        ensures
            n == self@.choices.len(),
    {
        self.choices.len()
    }

    /// The number of votes in the store, of all polls together.
    pub fn vote_count(&self) -> (n: usize)
        ensures
            n == self@.votes.len(),
    {
        self.votes.len()
    }

    /// Hands out what the store holds and leaves the store empty.
    fn take(&mut self) -> (held: PollStore)
        ensures
            held@ == old(self)@,
            held@.wf(),
    {
        let mut held = PollStore::with_limits(0, 0, 0);
        core::mem::swap(self, &mut held);
        proof {
            use_type_invariant(&held);
        }
        held
    }

    /// Whether some poll carries the reference.
    fn holds_ref(&self, r: ExternalRef) -> (found: bool)
        ensures
            found == self@.has_ref(r),
    {
        let mut i: usize = 0;
        while i < self.polls.len()
            invariant
                i <= self.polls@.len(),
                forall|j: int| 0 <= j < i ==> (#[trigger] self@.polls[j]).uuid != r,
            decreases self.polls@.len() - i,
        {
            if self.polls[i].uuid == r {
                proof {
                    assert(self@.polls[i as int].uuid == r);
                }
                return true;
            }
            i = i + 1;
        }
        false
    }

    /// Stores a poll and, with it, one choice for each text that is not
    /// empty, and hands back what was stored. Either all of them are stored or
    /// nothing is: a poll without a title is refused as invalid, and one whose
    /// reference is taken, or for which the store has no room, as a fault of
    /// the store.
    pub fn insert_poll(&mut self, row: InsertablePoll, details: &Vec<String>, now: i64) -> (r:
        Result<PollResponse, CoreError>)
        ensures
            final(self)@.wf(),
            r is Ok <==> old(self)@.can_create(row@, views(details@)),
            match r {
                Ok(stored) => {
                    &&& final(self)@ == old(self)@.created(row@, views(details@), now)
                    &&& stored.poll@ == old(self)@.next_poll(row@, now)
                    &&& views(stored.choices@) == old(self)@.next_choices(
                        surviving(views(details@)),
                        now,
                    )
                },
                Err(e) => {
                    &&& final(self)@ == old(self)@
                    &&& e == if row@.title.len() == 0 {
                        CoreError::Validation
                    } else {
                        CoreError::Store
                    }
                },
            },
    {
        proof {
            use_type_invariant(&*self);
        }
        if row.title.as_str().is_empty() {
            return Err(CoreError::Validation);
        }
        if self.holds_ref(row.uuid) {
            return Err(CoreError::Store);
        }
        let kept = nonempty_texts(details);
        if self.polls.len() >= self.poll_limit || kept.len() > self.choice_limit
            - self.choices.len() {
            return Err(CoreError::Store);
        }
        let ghost before = self@;
        let ghost wanted = before.next_choices(views(kept@), now);
        let PollStore { mut polls, mut choices, votes, poll_limit, choice_limit, vote_limit } =
            self.take();
        let poll_id = (polls.len() + 1) as i32;
        let poll = Poll { id: poll_id, uuid: row.uuid, title: row.title, created_at: now };
        let stored = poll.clone();
        polls.push(poll);
        let mut made: Vec<Choice> = Vec::new();
        let mut i: usize = 0;
        proof {
            assert(views(polls@) =~= before.polls.push(before.next_poll(row@, now)));
            assert(views(choices@) =~= before.choices + wanted.take(0));
            assert(views(made@) =~= wanted.take(0));
        }
        while i < kept.len()
            invariant
                i <= kept@.len(),
                before.choices.len() + kept@.len() <= max_rows(),
                wanted == before.next_choices(views(kept@), now),
                poll_id == before.polls.len() + 1,
                choices@.len() == before.choices.len() + i,
                views(choices@) == before.choices + wanted.take(i as int),
                views(made@) == wanted.take(i as int),
            decreases kept@.len() - i,
        {
            let choice = Choice {
                id: (choices.len() + 1) as i32,
                poll_id,
                details: kept[i].clone(),
                created_at: now,
            };
            proof {
                assert(choice@ == wanted[i as int]);
                assert(views(choices@.push(choice)) =~= views(choices@).push(choice@));
                assert(wanted.take(i + 1) =~= wanted.take(i as int).push(wanted[i as int]));
                assert(views(choices@).push(choice@) =~= before.choices + wanted.take(i + 1));
                assert(views(made@.push(choice)) =~= views(made@).push(choice@));
            }
            made.push(choice.clone());
            choices.push(choice);
            i = i + 1;
        }
        proof {
            assert(wanted.take(i as int) =~= wanted);
            let after = before.created(row@, views(details@), now);
            assert forall|k: int| 0 <= k < wanted.len() implies (#[trigger] wanted[k]).details.len()
                > 0 by {
                views(details@).lemma_filter_pred(|d: Seq<char>| d.len() > 0, k);
            }
            assert forall|a: int, b: int| 0 <= a < b < after.polls.len() implies (
            #[trigger] after.polls[a]).uuid != (#[trigger] after.polls[b]).uuid by {
                if b == before.polls.len() {
                    assert(before.polls[a].uuid != row.uuid);
                }
            }
            assert(after.wf());
        }
        *self = PollStore { polls, choices, votes, poll_limit, choice_limit, vote_limit };
        Ok(PollResponse { poll: stored, choices: made })
    }

    /// Stores the votes, in order. Either all of them are stored or none is:
    /// where a row may not be stored, or the store has no room for all, the
    /// write is refused as a fault of the store.
    pub fn insert_votes(&mut self, rows: &Vec<InsertableVote>, now: i64) -> (r: Result<
        (),
        CoreError,
    >)
        ensures
            final(self)@.wf(),
            r is Ok <==> old(self)@.can_record(views(rows@)),
            match r {
                Ok(()) => final(self)@ == old(self)@.recorded(views(rows@), now),
                Err(e) => final(self)@ == old(self)@ && e == CoreError::Store,
            },
    {
        proof {
            use_type_invariant(&*self);
        }
        let ghost before = self@;
        let ghost given = views(rows@);
        if rows.len() > self.vote_limit - self.votes.len() {
            return Err(CoreError::Store);
        }
        let mut i: usize = 0;
        while i < rows.len()
            invariant
                i <= rows@.len(),
                before == self@,
                before.wf(),
                given == views(rows@),
                forall|k: int|
                    0 <= k < i ==> before.accepts(
                        (#[trigger] given[k]).poll_id,
                        given[k].choice_id,
                        given[k].dots,
                    ),
            decreases rows@.len() - i,
        {
            let row = &rows[i];
            proof {
                assert(given[i as int] == row@);
            }
            if row.dots == 0 || row.choice_id < 1 || row.choice_id as usize > self.choices.len() {
                return Err(CoreError::Store);
            }
            if self.choices[(row.choice_id - 1) as usize].poll_id != row.poll_id {
                proof {
                    assert(before.choices[row.choice_id - 1] == self.choices@[row.choice_id - 1]@);
                }
                return Err(CoreError::Store);
            }
            proof {
                assert(before.choices[row.choice_id - 1] == self.choices@[row.choice_id - 1]@);
            }
            i = i + 1;
        }
        let ghost wanted = before.next_votes(given, now);
        let PollStore { polls, choices, mut votes, poll_limit, choice_limit, vote_limit } =
            self.take();
        let mut i: usize = 0;
        proof {
            assert(views(votes@) =~= before.votes + wanted.take(0));
        }
        while i < rows.len()
            invariant
                i <= rows@.len(),
                before.votes.len() + rows@.len() <= max_rows(),
                given == views(rows@),
                wanted == before.next_votes(given, now),
                votes@.len() == before.votes.len() + i,
                views(votes@) == before.votes + wanted.take(i as int),
            decreases rows@.len() - i,
        {
            let row = &rows[i];
            let vote = Vote {
                id: (votes.len() + 1) as i32,
                poll_id: row.poll_id,
                choice_id: row.choice_id,
                voter: row.voter.clone(),
                dots: row.dots,
                created_at: now,
            };
            proof {
                assert(given[i as int] == row@);
                assert(vote@ == wanted[i as int]);
                assert(views(votes@.push(vote)) =~= views(votes@).push(vote@));
                assert(wanted.take(i + 1) =~= wanted.take(i as int).push(wanted[i as int]));
                assert(views(votes@).push(vote@) =~= before.votes + wanted.take(i + 1));
            }
            votes.push(vote);
            i = i + 1;
        }
        proof {
            assert(wanted.take(i as int) =~= wanted);
            assert(before.recorded(given, now).wf());
        }
        *self = PollStore { polls, choices, votes, poll_limit, choice_limit, vote_limit };
        Ok(())
    }
}

impl PollStore {
    /// Records a ballot for poll `poll_id`. A ballot that names a choice
    /// which is not the poll's is refused as invalid, and nothing is stored;
    /// of one that is accepted, each pair that carries weight becomes a vote,
    /// all of them or, where the store has no room, none.
    pub fn record_ballot(&mut self, poll_id: i32, ballot: &Ballot, now: i64) -> (r: Result<
        (),
        CoreError,
    >)
        ensures
            final(self)@.wf(),
            r is Ok <==> old(self)@.names_own_choices(poll_id, ballot.choices@) && old(
                self,
            )@.has_room_for_ballot(ballot.choices@),
            match r {
                Ok(()) => old(self)@.records_ballot(
                    final(self)@,
                    poll_id,
                    voter_or_default(ballot.voter),
                    ballot.choices@,
                    now,
                ),
                Err(e) => {
                    &&& final(self)@ == old(self)@
                    &&& e == if old(self)@.names_own_choices(poll_id, ballot.choices@) {
                        CoreError::Store
                    } else {
                        CoreError::Validation
                    }
                },
            },
    {
        let ghost before = self@;
        let choices = Choice::for_poll(poll_id, &*self);
        let known = known_ids(&choices);
        let valid = match validate(ballot, &known) {
            Ok(valid) => valid,
            Err(e) => {
                proof {
                    use_type_invariant(&*self);
                }
                return Err(e);
            },
        };
        let rows = valid.rows(poll_id);
        proof {
            valid@.entries.unique_seq_to_set();
            lemma_valid_rows_are_accepted(before, poll_id, valid@, ballot.choices@);
        }
        let r = self.insert_votes(&rows, now);
        proof {
            if r is Ok {
                assert(self@ == before.recorded(
                    vote_rows(poll_id, ValidBallotView { voter: valid@.voter, entries: valid@.entries }),
                    now,
                ));
            }
        }
        r
    }
}

/// The store accepts every row of a ballot that names only choices of its
/// poll and has no entry without weight.
pub proof fn lemma_valid_rows_are_accepted(
    store: StoreState,
    poll_id: i32,
    valid: ValidBallotView,
    choices: Map<i32, i32>,
)
    requires
        store.wf(),
        store.names_own_choices(poll_id, choices),
        valid.entries.to_set() == weighty_pairs(choices),
    ensures
        forall|i: int|
            0 <= i < vote_rows(poll_id, valid).len() ==> store.accepts(
                (#[trigger] vote_rows(poll_id, valid)[i]).poll_id,
                vote_rows(poll_id, valid)[i].choice_id,
                vote_rows(poll_id, valid)[i].dots,
            ),
{
    let rows = vote_rows(poll_id, valid);
    let own = store.choices_of(poll_id);
    let owned = |c: ChoiceView| c.poll_id == poll_id;
    assert forall|i: int| 0 <= i < rows.len() implies store.accepts(
        (#[trigger] rows[i]).poll_id,
        rows[i].choice_id,
        rows[i].dots,
    ) by {
        let e = valid.entries[i];
        assert(valid.entries.to_set().contains(e));
        assert(weighty_pairs(choices).contains(e));
        assert(choices.dom().contains(e.0));
        let ids = own.map_values(|c: ChoiceView| c.id);
        assert(ids.to_set().contains(e.0));
        let k = choose|k: int| 0 <= k < ids.len() && ids[k] == e.0;
        assert(own[k].id == e.0);
        store.choices.lemma_filter_pred(owned, k);
        assert(own.contains(own[k]));
        store.choices.lemma_filter_contains_rev(owned, own[k]);
        let at = choose|at: int| 0 <= at < store.choices.len() && store.choices[at] == own[k];
        assert(store.choices[at].id == at + 1);
    }
}

impl Choice {
    /// The choices of poll `id`, in the order they were created.
    pub fn for_poll(id: i32, db: &PollStore) -> (found: Vec<Choice>)
        ensures
            db@.wf(),
            views(found@) == db@.choices_of(id),
    {
        proof {
            use_type_invariant(db);
        }
        let ghost all = db@.choices;
        let ghost owned = |c: ChoiceView| c.poll_id == id;
        let mut found: Vec<Choice> = Vec::new();
        let mut i: usize = 0;
        proof {
            lemma_filter_nothing(all.take(0), owned);
            assert(views(found@) =~= Seq::<ChoiceView>::empty());
        }
        while i < db.choices.len()
            invariant
                i <= db.choices@.len(),
                all == views(db.choices@),
                owned == (|c: ChoiceView| c.poll_id == id),
                views(found@) == all.take(i as int).filter(owned),
            decreases db.choices@.len() - i,
        {
            let choice = &db.choices[i];
            proof {
                lemma_filter_take_next(all, owned, i as int);
                assert(all[i as int] == choice@);
            }
            if choice.poll_id == id {
                let ghost before = views(found@);
                found.push(choice.clone());
                proof {
                    assert(views(found@) =~= before.push(choice@));
                }
            }
            i = i + 1;
        }
        proof {
            assert(all.take(i as int) =~= all);
        }
        found
    }
}

impl Vote {
    /// The votes recorded for poll `id`, in the order they were recorded.
    pub fn for_poll(id: i32, db: &PollStore) -> (found: Vec<Vote>)
        ensures
            db@.wf(),
            views(found@) == db@.votes_of(id),
    {
        proof {
            use_type_invariant(db);
        }
        let ghost all = db@.votes;
        let ghost owned = |v: VoteView| v.poll_id == id;
        let mut found: Vec<Vote> = Vec::new();
        let mut i: usize = 0;
        proof {
            lemma_filter_nothing(all.take(0), owned);
            assert(views(found@) =~= Seq::<VoteView>::empty());
        }
        while i < db.votes.len()
            invariant
                i <= db.votes@.len(),
                all == views(db.votes@),
                owned == (|v: VoteView| v.poll_id == id),
                views(found@) == all.take(i as int).filter(owned),
            decreases db.votes@.len() - i,
        {
            let vote = &db.votes[i];
            proof {
                lemma_filter_take_next(all, owned, i as int);
                assert(all[i as int] == vote@);
            }
            if vote.poll_id == id {
                let ghost before = views(found@);
                found.push(vote.clone());
                proof {
                    assert(views(found@) =~= before.push(vote@));
                }
            }
            i = i + 1;
        }
        proof {
            assert(all.take(i as int) =~= all);
        }
        found
    }
}

impl Poll {
    /// The poll that carries the reference.
    pub fn from_uuid(uuid: ExternalRef, db: &PollStore) -> (r: Result<Poll, CoreError>)
        ensures
            db@.wf(),
            match r {
                Ok(poll) => db@.has_ref(uuid) && poll@ == db@.poll_with_ref(uuid),
                Err(e) => !db@.has_ref(uuid) && e == CoreError::NotFound,
            },
    {
        proof {
            use_type_invariant(db);
        }
        let mut i: usize = 0;
        while i < db.polls.len()
            invariant
                i <= db.polls@.len(),
                db@.wf(),
                forall|j: int| 0 <= j < i ==> (#[trigger] db@.polls[j]).uuid != uuid,
            decreases db.polls@.len() - i,
        {
            if db.polls[i].uuid == uuid {
                proof {
                    assert(db@.polls[i as int].uuid == uuid);
                    let chosen = choose|j: int|
                        0 <= j < db@.polls.len() && (#[trigger] db@.polls[j]).uuid == uuid;
                    assert(chosen == i);
                    assert(db@.polls[i as int] == db.polls@[i as int]@);
                }
                return Ok(db.polls[i].clone());
            }
            i = i + 1;
        }
        Err(CoreError::NotFound)
    }

    /// Creates the poll that the request asks for, under a fresh reference,
    /// with one choice for each text of the request that is not empty. Either
    /// the poll and all its choices are stored, or nothing is.
    pub fn create(req: PollCreateRequest, db: &mut PollStore, now: i64) -> (r: Result<
        Poll,
        CoreError,
    >)
        ensures
            final(db)@.wf(),
            req.title@.len() == 0 ==> r is Err,
            req.title@.len() > 0 && old(db)@.polls.len() == 0 && old(db)@.has_room_for_poll(
                req.details(),
            ) ==> r is Ok,
            match r {
                Ok(poll) => {
                    let row = InsertablePollView { title: req.title@, uuid: poll@.uuid };
                    &&& is_random_ref(poll@.uuid)
                    &&& old(db)@.can_create(row, req.details())
                    &&& final(db)@ == old(db)@.created(row, req.details(), now)
                    &&& poll@ == old(db)@.next_poll(row, now)
                },
                Err(e) => {
                    &&& final(db)@ == old(db)@
                    &&& e == if req.title@.len() == 0 {
                        CoreError::Validation
                    } else {
                        CoreError::Store
                    }
                },
            },
    {
        let row = match req.poll_row() {
            Ok(row) => row,
            Err(e) => {
                proof {
                    use_type_invariant(&*db);
                }
                return Err(e);
            },
        };
        match db.insert_poll(row, &req.choices, now) {
            Ok(stored) => Ok(stored.poll),
            Err(e) => Err(e),
        }
    }

    /// Records a ballot for this poll under the voter's label: one vote for
    /// each choice that the ballot gives dots to. A ballot that names a
    /// choice which is not this poll's is refused, and nothing is stored.
    pub fn vote(&self, voter: &str, ballot: HashMap<i32, i32>, db: &mut PollStore, now: i64) -> (r:
        Result<(), CoreError>)
        ensures
            final(db)@.wf(),
            r is Ok <==> old(db)@.names_own_choices(self.id, ballot@) && old(
                db,
            )@.has_room_for_ballot(ballot@),
            match r {
                Ok(()) => old(db)@.records_ballot(final(db)@, self.id, voter@, ballot@, now),
                Err(e) => {
                    &&& final(db)@ == old(db)@
                    &&& e == if old(db)@.names_own_choices(self.id, ballot@) {
                        CoreError::Store
                    } else {
                        CoreError::Validation
                    }
                },
            },
    {
        let ballot = Ballot { voter: Some(voter.to_owned()), choices: ballot };
        db.record_ballot(self.id, &ballot, now)
    }
}

} // verus!
