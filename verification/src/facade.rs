//! The operations that the core offers to whatever stands in front of it:
//! create a poll, cast a ballot, read a poll and read its results. Each one
//! either takes effect whole or leaves the store as it was.

use std::collections::HashMap;
use vstd::prelude::*;
use crate::error::CoreError;
use crate::ident::is_random_ref;
use crate::models::{
    views, Choice, ChoiceView, ExternalRef, InsertablePollView, Poll, Vote, VoteView,
};
use crate::msg::{PollCreateRequest, PollResponse, PollResults, Tally};
use crate::seq_facts::lemma_filter_twice;
use crate::store::PollStore;
use crate::tally::{choice_result, choices_of, tally, tally_of, unranked, votes_for, PollResult};
use crate::validator::{voter_or_default, Ballot};

verus! {

/// Creates a poll with this title and one choice for each text that is not
/// empty, and hands back the poll. A poll without a title is refused as
/// invalid; where the store cannot take the poll and all its choices,
/// nothing is stored.
pub fn create_poll(db: &mut PollStore, title: String, choices: Vec<String>, now: i64) -> (r:
    Result<Poll, CoreError>)
    ensures
        final(db)@.wf(),
        title@.len() == 0 ==> r is Err,
        title@.len() > 0 && old(db)@.polls.len() == 0 && old(db)@.has_room_for_poll(
            views(choices@),
        ) ==> r is Ok,
        match r {
            Ok(poll) => {
                let row = InsertablePollView { title: title@, uuid: poll@.uuid };
                &&& is_random_ref(poll@.uuid)
                &&& old(db)@.can_create(row, views(choices@))
                &&& final(db)@ == old(db)@.created(row, views(choices@), now)
                &&& poll@ == old(db)@.next_poll(row, now)
            },
            Err(e) => {
                &&& final(db)@ == old(db)@
                &&& e == if title@.len() == 0 {
                    CoreError::Validation
                } else {
                    CoreError::Store
                }
            },
        },
{
    Poll::create(PollCreateRequest { title, choices }, db, now)
}

/// Casts a ballot in the poll that carries the reference. Where no poll
/// does, or the ballot names a choice that is not the poll's, or the store has
/// no room for all its votes, nothing is stored.
pub fn cast_ballot(
    db: &mut PollStore,
    poll_ref: ExternalRef,
    voter: Option<String>,
    choices: HashMap<i32, i32>,
    now: i64,
) -> (r: Result<(), CoreError>)
    ensures
        final(db)@.wf(),
        r is Ok <==> {
            &&& old(db)@.has_ref(poll_ref)
            &&& old(db)@.names_own_choices(old(db)@.poll_with_ref(poll_ref).id, choices@)
            &&& old(db)@.has_room_for_ballot(choices@)
        },
        match r {
            Ok(()) => old(db)@.records_ballot(
                final(db)@,
                old(db)@.poll_with_ref(poll_ref).id,
                voter_or_default(voter),
                choices@,
                now,
            ),
            Err(e) => {
                &&& final(db)@ == old(db)@
                &&& e == if !old(db)@.has_ref(poll_ref) {
                    CoreError::NotFound
                } else if !old(db)@.names_own_choices(
                    old(db)@.poll_with_ref(poll_ref).id,
                    choices@,
                ) {
                    CoreError::Validation
                } else {
                    CoreError::Store
                }
            },
        },
{
    let poll = match Poll::from_uuid(poll_ref, &*db) {
        Ok(poll) => poll,
        Err(e) => {
            return Err(e);
        },
    };
    let ballot = Ballot { voter, choices };
    db.record_ballot(poll.id, &ballot, now)
}

/// The tally of a poll's own choices and votes is the tally of the poll
/// among all the choices and votes there are.
pub proof fn lemma_tally_of_own_rows(poll_id: i32, choices: Seq<ChoiceView>, votes: Seq<VoteView>)
    ensures
        tally_of(
            poll_id,
            choices_of(choices, poll_id),
            votes.filter(|v: VoteView| v.poll_id == poll_id),
        ) == tally_of(poll_id, choices, votes),
{
    let owned = |c: ChoiceView| c.poll_id == poll_id;
    let cast = |v: VoteView| v.poll_id == poll_id;
    let own = choices_of(choices, poll_id);
    let own_votes = votes.filter(cast);
    lemma_filter_twice(choices, owned, owned);
    assert forall|k: int| 0 <= k < own.len() implies choice_result(#[trigger] own[k], own_votes)
        == choice_result(own[k], votes) by {
        choices.lemma_filter_pred(owned, k);
        let c = own[k];
        let counted = |v: VoteView| v.poll_id == c.poll_id && v.choice_id == c.id;
        lemma_filter_twice(votes, cast, counted);
        assert(votes_for(own_votes, c.poll_id, c.id) == votes_for(votes, c.poll_id, c.id));
    }
    assert(unranked(poll_id, own, own_votes) =~= unranked(poll_id, choices, votes));
}

/// The results of the poll that carries the reference: one entry for each of
/// its choices, ranked by total. Nothing is written.
pub fn get_results(db: &PollStore, poll_ref: ExternalRef) -> (r: Result<Vec<PollResult>, CoreError>)
    ensures
        db@.wf(),
        db@.answers_results(
            poll_ref,
            match r {
                Ok(results) => Ok(views(results@)),
                Err(e) => Err(e),
            },
        ),
{
    let poll = match Poll::from_uuid(poll_ref, db) {
        Ok(poll) => poll,
        Err(e) => {
            return Err(e);
        },
    };
    let choices = Choice::for_poll(poll.id, db);
    let votes = Vote::for_poll(poll.id, db);
    proof {
        db@.votes.lemma_filter_len(|v: VoteView| v.poll_id == poll.id);
        lemma_tally_of_own_rows(poll.id, db@.choices, db@.votes);
    }
    Ok(tally(&poll, &choices, &votes))
}

/// The poll that carries the reference, with its choices.
pub fn get_poll(db: &PollStore, poll_ref: ExternalRef) -> (r: Result<PollResponse, CoreError>)
    ensures
        db@.wf(),
        match r {
            Ok(found) => {
                &&& db@.has_ref(poll_ref)
                &&& found.poll@ == db@.poll_with_ref(poll_ref)
                &&& views(found.choices@) == db@.choices_of(found.poll.id)
            },
            Err(e) => !db@.has_ref(poll_ref) && e == CoreError::NotFound,
        },
{
    let poll = match Poll::from_uuid(poll_ref, db) {
        Ok(poll) => poll,
        Err(e) => {
            return Err(e);
        },
    };
    let choices = Choice::for_poll(poll.id, db);
    Ok(PollResponse { poll, choices })
}

/// The poll that carries the reference, with its ranked results.
pub fn poll_results(db: &PollStore, poll_ref: ExternalRef) -> (r: Result<Tally, CoreError>)
    ensures
        db@.wf(),
        match r {
            Ok(found) => {
                &&& db@.has_ref(poll_ref)
                &&& found.poll@ == db@.poll_with_ref(poll_ref)
                &&& views(found.choices@) == db@.results_of(poll_ref)
            },
            Err(e) => !db@.has_ref(poll_ref) && e == CoreError::NotFound,
        },
{
    let poll = match Poll::from_uuid(poll_ref, db) {
        Ok(poll) => poll,
        Err(e) => {
            return Err(e);
        },
    };
    match get_results(db, poll_ref) {
        Ok(choices) => Ok(Tally { poll, choices }),
        Err(e) => Err(e),
    }
}

/// The poll that carries the reference, with its choices and every vote
/// recorded for it.
pub fn results(db: &PollStore, poll_ref: ExternalRef) -> (r: Result<PollResults, CoreError>)
    ensures
        db@.wf(),
        match r {
            Ok(found) => {
                &&& db@.has_ref(poll_ref)
                &&& found.poll@ == db@.poll_with_ref(poll_ref)
                &&& views(found.choices@) == db@.choices_of(found.poll.id)
                &&& views(found.votes@) == db@.votes_of(found.poll.id)
            },
            Err(e) => !db@.has_ref(poll_ref) && e == CoreError::NotFound,
        },
{
    let poll = match Poll::from_uuid(poll_ref, db) {
        Ok(poll) => poll,
        Err(e) => {
            return Err(e);
        },
    };
    let choices = Choice::for_poll(poll.id, db);
    let votes = Vote::for_poll(poll.id, db);
    Ok(PollResults { poll, choices, votes })
}

} // verus!
