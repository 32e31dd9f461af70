use std::collections::HashMap;

use dotdotvote::error::CoreError;
use dotdotvote::facade::{cast_ballot, create_poll, get_poll, get_results, poll_results, results};
use dotdotvote::models::{Choice, Poll, Vote};
use dotdotvote::store::PollStore;
use dotdotvote::tally::PollResult;

fn texts(items: &[&str]) -> Vec<String> {
    items.iter().map(|c| c.to_string()).collect()
}

fn weights(pairs: &[(i32, i32)]) -> HashMap<i32, i32> {
    pairs.iter().copied().collect()
}

fn result(details: &str, total: i64, voters: &str) -> PollResult {
    PollResult { details: details.to_string(), total, voters: voters.to_string() }
}

fn details_of(choices: Vec<Choice>) -> Vec<String> {
    choices.into_iter().map(|c| c.details).collect()
}

#[test]
fn a_created_poll_has_a_new_reference_and_its_nonempty_choices() {
    let mut db = PollStore::new();
    let first = create_poll(&mut db, "Lunch".to_string(), texts(&["pizza", "", "soup", ""]), 10).unwrap();
    let second = create_poll(&mut db, "Dinner".to_string(), texts(&["", "rice"]), 20).unwrap();
    assert_ne!(first.uuid, second.uuid);
    assert_ne!(first.uuid, 0);
    assert_eq!((first.id, second.id), (1, 2));
    let found = get_poll(&db, first.uuid).unwrap();
    assert_eq!(found.poll, first);
    assert_eq!(details_of(found.choices), texts(&["pizza", "soup"]));
    let found = get_poll(&db, second.uuid).unwrap();
    assert_eq!(found.poll, second);
    assert_eq!(details_of(found.choices), texts(&["rice"]));
}

#[test]
fn a_poll_without_title_is_never_created() {
    let mut db = PollStore::new();
    assert_eq!(
        create_poll(&mut db, String::new(), texts(&["pizza", "soup"]), 10),
        Err(CoreError::Validation)
    );
    assert_eq!(create_poll(&mut db, String::new(), texts(&[]), 10), Err(CoreError::Validation));
    assert_eq!(db.poll_count(), 0);
    assert_eq!(db.choice_count(), 0);
}

#[test]
fn a_poll_whose_choices_do_not_all_fit_is_not_created() {
    let mut db = PollStore::with_limits(10, 2, 10);
    let kept = create_poll(&mut db, "Lunch".to_string(), texts(&["pizza"]), 10).unwrap();
    assert_eq!(
        create_poll(&mut db, "Dinner".to_string(), texts(&["rice", "beans"]), 20),
        Err(CoreError::Store)
    );
    assert_eq!(db.poll_count(), 1);
    assert_eq!(db.choice_count(), 1);
    assert_eq!(get_poll(&db, kept.uuid).unwrap().poll, kept);
}

#[test]
fn a_ballot_for_a_foreign_choice_is_invalid_and_leaves_no_vote() {
    let mut db = PollStore::new();
    let lunch = create_poll(&mut db, "Lunch".to_string(), texts(&["pizza", "soup"]), 10).unwrap();
    let dinner = create_poll(&mut db, "Dinner".to_string(), texts(&["rice"]), 20).unwrap();
    assert_eq!(
        cast_ballot(&mut db, lunch.uuid, Some("ann".to_string()), weights(&[(1, 2), (3, 1)]), 30),
        Err(CoreError::Validation)
    );
    assert_eq!(
        cast_ballot(&mut db, dinner.uuid, Some("ann".to_string()), weights(&[(1, 2)]), 30),
        Err(CoreError::Validation)
    );
    assert_eq!(
        cast_ballot(&mut db, lunch.uuid, Some("ann".to_string()), weights(&[(99, 0)]), 30),
        Err(CoreError::Validation)
    );
    assert_eq!(db.vote_count(), 0);
    assert_eq!(results(&db, lunch.uuid).unwrap().votes, vec![]);
    assert_eq!(results(&db, dinner.uuid).unwrap().votes, vec![]);
}

#[test]
fn a_ballot_records_one_vote_for_each_choice_with_dots() {
    let mut db = PollStore::new();
    let poll = create_poll(&mut db, "Lunch".to_string(), texts(&["choiceA", "choiceB"]), 10).unwrap();
    assert_eq!(
        cast_ballot(&mut db, poll.uuid, Some("ann".to_string()), weights(&[(1, 3), (2, 0)]), 30),
        Ok(())
    );
    assert_eq!(
        results(&db, poll.uuid).unwrap().votes,
        vec![Vote { id: 1, poll_id: 1, choice_id: 1, voter: "ann".to_string(), dots: 3, created_at: 30 }]
    );
    assert_eq!(db.vote_count(), 1);
}

#[test]
fn a_ballot_without_dots_is_valid_and_records_nothing() {
    let mut db = PollStore::new();
    let poll = create_poll(&mut db, "Lunch".to_string(), texts(&["a", "b"]), 10).unwrap();
    assert_eq!(cast_ballot(&mut db, poll.uuid, None, weights(&[(1, 0), (2, 0)]), 30), Ok(()));
    assert_eq!(cast_ballot(&mut db, poll.uuid, None, weights(&[]), 30), Ok(()));
    assert_eq!(db.vote_count(), 0);
}

#[test]
fn a_ballot_for_an_unknown_poll_is_not_found() {
    let mut db = PollStore::new();
    create_poll(&mut db, "Lunch".to_string(), texts(&["a"]), 10).unwrap();
    assert_eq!(
        cast_ballot(&mut db, 12345, Some("ann".to_string()), weights(&[(1, 1)]), 30),
        Err(CoreError::NotFound)
    );
    assert_eq!(db.vote_count(), 0);
}

#[test]
fn repeated_ballots_add_up() {
    let mut db = PollStore::new();
    let poll = create_poll(&mut db, "Lunch".to_string(), texts(&["a", "b"]), 10).unwrap();
    cast_ballot(&mut db, poll.uuid, Some("ann".to_string()), weights(&[(1, 1)]), 30).unwrap();
    cast_ballot(&mut db, poll.uuid, Some("ann".to_string()), weights(&[(1, 2)]), 31).unwrap();
    assert_eq!(
        get_results(&db, poll.uuid),
        Ok(vec![result("a", 3, "ann, ann"), result("b", 0, "")])
    );
}

#[test]
fn results_rank_the_choices_by_their_totals() {
    let mut db = PollStore::new();
    let poll = create_poll(&mut db, "Lunch".to_string(), texts(&["choiceB", "choiceA"]), 10).unwrap();
    cast_ballot(&mut db, poll.uuid, Some("voterX".to_string()), weights(&[(2, 2)]), 30).unwrap();
    cast_ballot(&mut db, poll.uuid, Some("voterY".to_string()), weights(&[(2, 3)]), 31).unwrap();
    cast_ballot(&mut db, poll.uuid, Some("voterZ".to_string()), weights(&[(1, 1)]), 32).unwrap();
    assert_eq!(
        get_results(&db, poll.uuid),
        Ok(vec![result("choiceA", 5, "voterX, voterY"), result("choiceB", 1, "voterZ")])
    );
    let page = poll_results(&db, poll.uuid).unwrap();
    assert_eq!(page.poll, poll);
    assert_eq!(
        page.choices,
        vec![result("choiceA", 5, "voterX, voterY"), result("choiceB", 1, "voterZ")]
    );
}

#[test]
fn a_choice_nobody_voted_for_is_in_the_results() {
    let mut db = PollStore::new();
    let poll = create_poll(&mut db, "Lunch".to_string(), texts(&["a", "b", "c"]), 10).unwrap();
    cast_ballot(&mut db, poll.uuid, None, weights(&[(3, 1)]), 30).unwrap();
    assert_eq!(
        get_results(&db, poll.uuid),
        Ok(vec![result("c", 1, "Unknown"), result("a", 0, ""), result("b", 0, "")])
    );
}

#[test]
fn results_of_one_poll_leave_out_the_votes_of_another() {
    let mut db = PollStore::new();
    let lunch = create_poll(&mut db, "Lunch".to_string(), texts(&["a", "b"]), 10).unwrap();
    let dinner = create_poll(&mut db, "Dinner".to_string(), texts(&["c"]), 20).unwrap();
    cast_ballot(&mut db, dinner.uuid, Some("ann".to_string()), weights(&[(3, 5)]), 30).unwrap();
    cast_ballot(&mut db, lunch.uuid, Some("bob".to_string()), weights(&[(2, 1)]), 31).unwrap();
    assert_eq!(get_results(&db, lunch.uuid), Ok(vec![result("b", 1, "bob"), result("a", 0, "")]));
    assert_eq!(get_results(&db, dinner.uuid), Ok(vec![result("c", 5, "ann")]));
}

#[test]
fn reading_of_an_unknown_poll_is_not_found() {
    let mut db = PollStore::new();
    assert_eq!(get_results(&db, 12345), Err(CoreError::NotFound));
    create_poll(&mut db, "Lunch".to_string(), texts(&["a"]), 10).unwrap();
    assert_eq!(get_results(&db, 12345), Err(CoreError::NotFound));
    assert_eq!(get_poll(&db, 12345), Err(CoreError::NotFound));
    assert_eq!(poll_results(&db, 12345), Err(CoreError::NotFound));
    assert_eq!(results(&db, 12345), Err(CoreError::NotFound));
}

#[test]
fn reading_the_results_twice_gives_the_same_twice() {
    let mut db = PollStore::new();
    let poll = create_poll(&mut db, "Lunch".to_string(), texts(&["a", "b", "c"]), 10).unwrap();
    cast_ballot(&mut db, poll.uuid, Some("ann".to_string()), weights(&[(1, 1), (2, 2), (3, 2)]), 30)
        .unwrap();
    let first = get_results(&db, poll.uuid);
    let second = get_results(&db, poll.uuid);
    assert_eq!(first, second);
    assert_eq!(first, Ok(vec![result("b", 2, "ann"), result("c", 2, "ann"), result("a", 1, "ann")]));
    assert_eq!(db.vote_count(), 3);
}

#[test]
fn the_raw_records_of_a_poll_are_its_choices_and_votes() {
    let mut db = PollStore::new();
    let poll = create_poll(&mut db, "Lunch".to_string(), texts(&["a", "b"]), 10).unwrap();
    cast_ballot(&mut db, poll.uuid, Some("ann".to_string()), weights(&[(2, 4)]), 30).unwrap();
    let raw = results(&db, poll.uuid).unwrap();
    assert_eq!(raw.poll, Poll { id: 1, uuid: poll.uuid, title: "Lunch".to_string(), created_at: 10 });
    assert_eq!(details_of(raw.choices), texts(&["a", "b"]));
    assert_eq!(
        raw.votes,
        vec![Vote { id: 1, poll_id: 1, choice_id: 2, voter: "ann".to_string(), dots: 4, created_at: 30 }]
    );
}
