//! The messages that go in and out: the request that creates a poll, and the
//! answers that show a poll, its raw records, and its results.

use vstd::prelude::*;
use crate::error::CoreError;
use crate::ident::{generate_uuid, is_random_ref};
use crate::models::{
    views, Choice, ExternalRef, InsertableChoice, InsertableChoiceView, InsertablePoll, Poll, Vote,
};
use crate::seq_facts::{lemma_filter_nothing, lemma_filter_take_next};
use crate::tally::PollResult;

verus! {

/// A poll with its choices, in the order in which the choices were created.
#[derive(Debug, PartialEq, Eq)]
pub struct PollResponse {
    pub poll: Poll,
    pub choices: Vec<Choice>,
}

/// A poll with its choices and every vote recorded for it, none of it summed.
#[derive(Debug, PartialEq, Eq)]
pub struct PollResults {
    pub poll: Poll,
    pub choices: Vec<Choice>,
    pub votes: Vec<Vote>,
}

/// The results of a poll: one entry for each of its choices, ranked by total.
#[derive(Debug, PartialEq, Eq)]
pub struct Tally {
    pub poll: Poll,
    pub choices: Vec<PollResult>,
}

/// The request to create a poll.
#[derive(Debug, PartialEq, Eq)]
pub struct PollCreateRequest {
    pub title: String,
    /// The text of each choice. An empty text stands for no choice.
    pub choices: Vec<String>,
}

/// The texts that become choices: those that are not empty, in order.
pub open spec fn surviving(details: Seq<Seq<char>>) -> Seq<Seq<char>> {
    details.filter(|d: Seq<char>| d.len() > 0)
}

/// The choice rows of poll `poll_id` for the given texts, one for one.
pub open spec fn choice_rows_of(details: Seq<Seq<char>>, poll_id: i32) -> Seq<
    InsertableChoiceView,
> {
    details.map_values(|d: Seq<char>| InsertableChoiceView { details: d, poll_id })
}

/// The texts that are not empty, in order.
pub fn nonempty_texts(texts: &Vec<String>) -> (kept: Vec<String>)
    ensures
        views(kept@) == surviving(views(texts@)),
{
    let ghost nonempty = |d: Seq<char>| d.len() > 0;
    let ghost all = views(texts@);
    let mut kept: Vec<String> = Vec::new();
    let mut i: usize = 0;
    proof {
        lemma_filter_nothing(all.take(0), nonempty);
        assert(views(kept@) =~= Seq::<Seq<char>>::empty());
    }
    while i < texts.len()
        invariant
            i <= texts@.len(),
            all == views(texts@),
            nonempty == (|d: Seq<char>| d.len() > 0),
            views(kept@) == all.take(i as int).filter(nonempty),
        decreases texts@.len() - i,
    {
        let text = &texts[i];
        proof {
            lemma_filter_take_next(all, nonempty, i as int);
            assert(all[i as int] == text@);
        }
        if !text.as_str().is_empty() {
            let ghost before = views(kept@);
            kept.push(text.clone());
            proof {
                assert(views(kept@) =~= before.push(text@));
            }
        }
        i = i + 1;
    }
    proof {
        assert(all.take(i as int) =~= all);
    }
    kept
}

impl PollCreateRequest {
    /// The texts of the request's choices.
    pub open spec fn details(&self) -> Seq<Seq<char>> {
        views(self.choices@)
    }

    /// The texts that become choices: the request's texts that are not empty, in order.
    pub fn surviving_choices(&self) -> (kept: Vec<String>)
        ensures
            views(kept@) == surviving(self.details()),
    {
        nonempty_texts(&self.choices)
    }

    /// The poll row of the request under a given reference. A request without
    /// a title is refused.
    pub fn poll_row_with(&self, uuid: ExternalRef) -> (r: Result<InsertablePoll, CoreError>)
        ensures
            match r {
                Ok(row) => self.title@.len() > 0 && row@.title == self.title@ && row@.uuid == uuid,
                Err(e) => self.title@.len() == 0 && e == CoreError::Validation,
            },
    {
        if self.title.as_str().is_empty() {
            Err(CoreError::Validation)
        } else {
            Ok(InsertablePoll { title: self.title.clone(), uuid })
        }
    }

    /// The poll row of the request under a fresh reference. A request without
    /// a title is refused, and then no reference is drawn.
    pub fn poll_row(&self) -> (r: Result<InsertablePoll, CoreError>)
        ensures
            match r {
                Ok(row) => self.title@.len() > 0 && row@.title == self.title@ && is_random_ref(
                    row@.uuid,
                ),
                Err(e) => self.title@.len() == 0 && e == CoreError::Validation,
            },
    {
        if self.title.as_str().is_empty() {
            Err(CoreError::Validation)
        } else {
            self.poll_row_with(generate_uuid())
        }
    }

    /// The choice rows of the request for the poll that the store numbered `poll_id`.
    pub fn choice_rows(&self, poll_id: i32) -> (rows: Vec<InsertableChoice>)
        ensures
            views(rows@) == choice_rows_of(surviving(self.details()), poll_id),
    {
        let kept = self.surviving_choices();
        let ghost wanted = choice_rows_of(views(kept@), poll_id);
        let mut rows: Vec<InsertableChoice> = Vec::new();
        let mut i: usize = 0;
        proof {
            assert(views(rows@) =~= wanted.take(0));
        }
        while i < kept.len()
            invariant
                i <= kept@.len(),
                wanted == choice_rows_of(views(kept@), poll_id),
                views(rows@) == wanted.take(i as int),
            decreases kept@.len() - i,
        {
            let ghost before = views(rows@);
            rows.push(InsertableChoice { details: kept[i].clone(), poll_id });
            proof {
                assert(views(rows@) =~= before.push(wanted[i as int]));
                assert(wanted.take(i + 1) =~= wanted.take(i as int).push(wanted[i as int]));
            }
            i = i + 1;
        }
        proof {
            assert(wanted.take(i as int) =~= wanted);
        }
        rows
    }
}

} // verus!
