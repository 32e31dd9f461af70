//! Dot voting: a poll with a title and a list of choices, ballots that spread
//! weighted "dots" over the choices, and the ranked tally of those ballots.
//!
//! The crate holds the rules of the poll lifecycle and proves them: how a poll
//! and its choices come into being as one unit, how a ballot is checked before
//! any of it is recorded, and how recorded votes are summed and ranked.
//!
//! - [`models`] and [`msg`]: the records, the rows they are made from, and the
//!   messages that go in and out.
//! - [`ident`]: the references of polls, which are version-4 UUIDs.
//! - [`validator`] and [`form`]: a ballot is read and checked.
//! - [`tally`]: votes become ranked results.
//! - [`store`]: an in-memory store whose writes take effect whole or not at all.
//! - [`facade`]: the operations on a store that an adapter calls.
//! - [`laws`]: what holds across operations.
//!
//! Times are microseconds since the Unix epoch and are handed in by the
//! caller; nothing here reads a clock.

pub mod error;
pub mod facade;
pub mod form;
pub mod ident;
pub mod laws;
pub mod models;
pub mod msg;
pub mod seq_facts;
pub mod store;
pub mod tally;
pub mod validator;
