//! The three kinds of record that the store keeps, and the rows from which
//! they are made. Each record has a view: the same fields as mathematical
//! values, with text as a sequence of characters.

use vstd::prelude::*;

verus! {

/// The reference by which a poll is known outside the store: 128 bits, of
/// which the version-4 UUID layout fixes six.
pub type ExternalRef = u128;

/// The most records of one kind that there can be: the keys are 32-bit and
/// start at 1.
pub open spec fn max_rows() -> int {
    0x7fff_ffff
}

/// A poll as the store keeps it.
#[derive(Debug, PartialEq, Eq)]
pub struct Poll {
    /// The store's own key: polls are numbered from 1 in the order they were created.
    pub id: i32,
    /// The reference that is handed out.
    pub uuid: ExternalRef,
    pub title: String,
    /// When the poll was created, in microseconds since the Unix epoch.
    pub created_at: i64,
}

pub struct PollView {
    pub id: i32,
    pub uuid: ExternalRef,
    pub title: Seq<char>,
    pub created_at: i64,
}

impl View for Poll {
    type V = PollView;

    open spec fn view(&self) -> PollView {
        PollView { id: self.id, uuid: self.uuid, title: self.title@, created_at: self.created_at }
    }
}

impl Clone for Poll {
    fn clone(&self) -> (copy: Self)
        ensures
            copy == *self,
    {
        Poll { id: self.id, uuid: self.uuid, title: self.title.clone(), created_at: self.created_at }
    }
}

/// One option of a poll.
#[derive(Debug, PartialEq, Eq)]
pub struct Choice {
    /// The store's own key: choices are numbered from 1 in the order they were created.
    pub id: i32,
    /// The `id` of the poll that owns the choice.
    pub poll_id: i32,
    pub details: String,
    pub created_at: i64,
}

pub struct ChoiceView {
    pub id: i32,
    pub poll_id: i32,
    pub details: Seq<char>,
    pub created_at: i64,
}

impl View for Choice {
    type V = ChoiceView;

    open spec fn view(&self) -> ChoiceView {
        ChoiceView {
            id: self.id,
            poll_id: self.poll_id,
            details: self.details@,
            created_at: self.created_at,
        }
    }
}

impl Clone for Choice {
    fn clone(&self) -> (copy: Self)
        ensures
            copy == *self,
    {
        Choice {
            id: self.id,
            poll_id: self.poll_id,
            details: self.details.clone(),
            created_at: self.created_at,
        }
    }
}

/// The dots that one voter gave to one choice.
#[derive(Debug, PartialEq, Eq)]
pub struct Vote {
    /// The store's own key: votes are numbered from 1 in the order they were recorded.
    pub id: i32,
    pub poll_id: i32,
    pub choice_id: i32,
    /// A label that the voter chose; nothing checks it and it need not be unique.
    pub voter: String,
    pub dots: i32,
    pub created_at: i64,
}

pub struct VoteView {
    pub id: i32,
    pub poll_id: i32,
    pub choice_id: i32,
    pub voter: Seq<char>,
    pub dots: i32,
    pub created_at: i64,
}

impl View for Vote {
    type V = VoteView;

    open spec fn view(&self) -> VoteView {
        VoteView {
            id: self.id,
            poll_id: self.poll_id,
            choice_id: self.choice_id,
            voter: self.voter@,
            dots: self.dots,
            created_at: self.created_at,
        }
    }
}

impl Clone for Vote {
    fn clone(&self) -> (copy: Self)
        ensures
            copy == *self,
    {
        Vote {
            id: self.id,
            poll_id: self.poll_id,
            choice_id: self.choice_id,
            voter: self.voter.clone(),
            dots: self.dots,
            created_at: self.created_at,
        }
    }
}

/// A poll that is about to be stored: what the store does not itself assign.
#[derive(Debug, PartialEq, Eq)]
pub struct InsertablePoll {
    pub title: String,
    pub uuid: ExternalRef,
}

pub struct InsertablePollView {
    pub title: Seq<char>,
    pub uuid: ExternalRef,
}

impl View for InsertablePoll {
    type V = InsertablePollView;

    open spec fn view(&self) -> InsertablePollView {
        InsertablePollView { title: self.title@, uuid: self.uuid }
    }
}

/// A choice that is about to be stored.
#[derive(Debug, PartialEq, Eq)]
pub struct InsertableChoice {
    pub details: String,
    pub poll_id: i32,
}

pub struct InsertableChoiceView {
    pub details: Seq<char>,
    pub poll_id: i32,
}

impl View for InsertableChoice {
    type V = InsertableChoiceView;

    open spec fn view(&self) -> InsertableChoiceView {
        InsertableChoiceView { details: self.details@, poll_id: self.poll_id }
    }
}

/// A vote that is about to be stored.
#[derive(Debug, PartialEq, Eq)]
pub struct InsertableVote {
    pub poll_id: i32,
    pub choice_id: i32,
    pub voter: String,
    pub dots: i32,
}

pub struct InsertableVoteView {
    pub poll_id: i32,
    pub choice_id: i32,
    pub voter: Seq<char>,
    pub dots: i32,
}

impl View for InsertableVote {
    type V = InsertableVoteView;

    open spec fn view(&self) -> InsertableVoteView {
        InsertableVoteView {
            poll_id: self.poll_id,
            choice_id: self.choice_id,
            voter: self.voter@,
            dots: self.dots,
        }
    }
}

/// The views of a sequence of records, one for one.
pub open spec fn views<T: View>(records: Seq<T>) -> Seq<T::V> {
    records.map_values(|record: T| record@)
}

} // verus!
