use dotdotvote::models::{Choice, Poll, Vote};
use dotdotvote::tally::{tally, tally_choice, PollResult};

fn poll(id: i32) -> Poll {
    Poll { id, uuid: 0x550e8400_e29b_41d4_a716_446655440000, title: "Lunch".to_string(), created_at: 0 }
}

fn choice(id: i32, poll_id: i32, details: &str) -> Choice {
    Choice { id, poll_id, details: details.to_string(), created_at: 0 }
}

fn vote(id: i32, poll_id: i32, choice_id: i32, voter: &str, dots: i32) -> Vote {
    Vote { id, poll_id, choice_id, voter: voter.to_string(), dots, created_at: 0 }
}

fn result(details: &str, total: i64, voters: &str) -> PollResult {
    PollResult { details: details.to_string(), total, voters: voters.to_string() }
}

#[test]
fn votes_are_summed_and_voters_joined_in_order() {
    let choices = vec![choice(1, 1, "choiceA"), choice(2, 1, "choiceB")];
    let votes = vec![
        vote(1, 1, 1, "voterX", 2),
        vote(2, 1, 1, "voterY", 3),
        vote(3, 1, 2, "voterZ", 1),
    ];
    assert_eq!(
        tally(&poll(1), &choices, &votes),
        vec![result("choiceA", 5, "voterX, voterY"), result("choiceB", 1, "voterZ")]
    );
}

#[test]
fn the_higher_total_comes_first_whatever_the_order_of_the_choices() {
    let choices = vec![choice(1, 1, "choiceB"), choice(2, 1, "choiceA")];
    let votes = vec![
        vote(1, 1, 2, "voterX", 2),
        vote(2, 1, 1, "voterZ", 1),
        vote(3, 1, 2, "voterY", 3),
    ];
    assert_eq!(
        tally(&poll(1), &choices, &votes),
        vec![result("choiceA", 5, "voterX, voterY"), result("choiceB", 1, "voterZ")]
    );
}

#[test]
fn a_choice_without_votes_is_listed_with_zero() {
    let choices = vec![choice(1, 1, "tea"), choice(2, 1, "coffee"), choice(3, 1, "water")];
    let votes = vec![vote(1, 1, 2, "ann", 4)];
    assert_eq!(
        tally(&poll(1), &choices, &votes),
        vec![result("coffee", 4, "ann"), result("tea", 0, ""), result("water", 0, "")]
    );
}

#[test]
fn a_poll_without_votes_lists_its_choices_in_their_order() {
    let choices = vec![choice(1, 1, "a"), choice(2, 1, "b"), choice(3, 1, "c")];
    assert_eq!(
        tally(&poll(1), &choices, &vec![]),
        vec![result("a", 0, ""), result("b", 0, ""), result("c", 0, "")]
    );
}

#[test]
fn a_poll_without_choices_has_no_results() {
    assert_eq!(tally(&poll(1), &vec![], &vec![vote(1, 1, 1, "ann", 2)]), vec![]);
}

#[test]
fn equal_totals_keep_the_order_of_the_choices() {
    let choices = vec![
        choice(1, 1, "first"),
        choice(2, 1, "second"),
        choice(3, 1, "third"),
        choice(4, 1, "fourth"),
    ];
    let votes = vec![
        vote(1, 1, 3, "u", 2),
        vote(2, 1, 1, "v", 2),
        vote(3, 1, 4, "w", 7),
        vote(4, 1, 2, "x", 2),
    ];
    assert_eq!(
        tally(&poll(1), &choices, &votes),
        vec![
            result("fourth", 7, "w"),
            result("first", 2, "v"),
            result("second", 2, "x"),
            result("third", 2, "u"),
        ]
    );
}

#[test]
fn negative_dots_lower_a_total() {
    let choices = vec![choice(1, 1, "liked"), choice(2, 1, "disliked"), choice(3, 1, "ignored")];
    let votes = vec![
        vote(1, 1, 2, "ann", -3),
        vote(2, 1, 1, "bob", 1),
        vote(3, 1, 2, "cid", 1),
    ];
    assert_eq!(
        tally(&poll(1), &choices, &votes),
        vec![
            result("liked", 1, "bob"),
            result("ignored", 0, ""),
            result("disliked", -2, "ann, cid"),
        ]
    );
}

#[test]
fn votes_and_choices_of_other_polls_are_left_out() {
    let choices = vec![choice(1, 1, "mine"), choice(2, 2, "theirs"), choice(3, 1, "also mine")];
    let votes = vec![
        vote(1, 2, 2, "ann", 9),
        vote(2, 1, 3, "bob", 2),
        vote(3, 2, 1, "cid", 5),
        vote(4, 1, 2, "dan", 5),
    ];
    assert_eq!(
        tally(&poll(1), &choices, &votes),
        vec![result("also mine", 2, "bob"), result("mine", 0, "")]
    );
    assert_eq!(tally(&poll(2), &choices, &votes), vec![result("theirs", 9, "ann")]);
    assert_eq!(tally(&poll(3), &choices, &votes), vec![]);
}

#[test]
fn a_voter_who_votes_twice_is_named_twice() {
    let choices = vec![choice(1, 1, "only")];
    let votes = vec![vote(1, 1, 1, "ann", 1), vote(2, 1, 1, "bob", 1), vote(3, 1, 1, "ann", 2)];
    assert_eq!(tally(&poll(1), &choices, &votes), vec![result("only", 4, "ann, bob, ann")]);
}

#[test]
fn an_empty_label_still_takes_its_place_among_the_voters() {
    let choices = vec![choice(1, 1, "only")];
    let votes = vec![vote(1, 1, 1, "", 1), vote(2, 1, 1, "", 1), vote(3, 1, 1, "zed", 1)];
    assert_eq!(tally(&poll(1), &choices, &votes), vec![result("only", 3, ", , zed")]);
}

#[test]
fn a_vote_without_weight_names_no_voter() {
    let choices = vec![choice(1, 1, "only")];
    let votes = vec![vote(1, 1, 1, "ann", 0), vote(2, 1, 1, "bob", 2), vote(3, 1, 1, "cid", 0)];
    assert_eq!(tally(&poll(1), &choices, &votes), vec![result("only", 2, "bob")]);
}

#[test]
fn totals_beyond_32_bits_are_kept() {
    let choices = vec![choice(1, 1, "big"), choice(2, 1, "small")];
    let votes = vec![
        vote(1, 1, 1, "a", i32::MAX),
        vote(2, 1, 1, "b", i32::MAX),
        vote(3, 1, 2, "c", i32::MIN),
        vote(4, 1, 2, "d", i32::MIN),
    ];
    assert_eq!(
        tally(&poll(1), &choices, &votes),
        vec![result("big", 4294967294, "a, b"), result("small", -4294967296, "c, d")]
    );
}

#[test]
fn one_choice_is_tallied_from_its_own_votes() {
    let votes = vec![
        vote(1, 1, 1, "ann", 2),
        vote(2, 1, 2, "bob", 3),
        vote(3, 2, 1, "cid", 4),
        vote(4, 1, 1, "dan", 5),
    ];
    assert_eq!(tally_choice(&choice(1, 1, "one"), &votes), result("one", 7, "ann, dan"));
    assert_eq!(tally_choice(&choice(2, 1, "two"), &votes), result("two", 3, "bob"));
    assert_eq!(tally_choice(&choice(3, 1, "three"), &votes), result("three", 0, ""));
}

#[test]
fn tallying_twice_gives_the_same_results() {
    let choices = vec![choice(1, 1, "a"), choice(2, 1, "b")];
    let votes = vec![vote(1, 1, 2, "ann", 2), vote(2, 1, 1, "bob", 2)];
    assert_eq!(tally(&poll(1), &choices, &votes), tally(&poll(1), &choices, &votes));
}
