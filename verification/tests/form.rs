use std::collections::HashMap;

use dotdotvote::form::{ballot_from_fields, ballot_from_form, read_field, FormField};

fn pairs(items: &[(&str, &str)]) -> Vec<(String, String)> {
    items.iter().map(|(k, v)| (k.to_string(), v.to_string())).collect()
}

fn map(items: &[(i32, i32)]) -> HashMap<i32, i32> {
    items.iter().copied().collect()
}

#[test]
fn the_name_field_holds_the_label() {
    assert_eq!(read_field("name", "ann"), FormField::Name("ann".to_string()));
    assert_eq!(read_field("name", ""), FormField::Name(String::new()));
    assert_eq!(read_field("name", "12"), FormField::Name("12".to_string()));
}

#[test]
fn any_other_field_holds_a_choice_and_its_dots() {
    assert_eq!(read_field("3", "2"), FormField::Dots(Some(3), Some(2)));
    assert_eq!(read_field("-3", "+2"), FormField::Dots(Some(-3), Some(2)));
    assert_eq!(read_field("2147483647", "-2147483648"), FormField::Dots(Some(i32::MAX), Some(i32::MIN)));
}

#[test]
fn what_is_no_number_is_read_as_none() {
    assert_eq!(read_field("three", "2"), FormField::Dots(None, Some(2)));
    assert_eq!(read_field("3", "two"), FormField::Dots(Some(3), None));
    assert_eq!(read_field("3", ""), FormField::Dots(Some(3), None));
    assert_eq!(read_field("3", " 2"), FormField::Dots(Some(3), None));
    assert_eq!(read_field("3", "2147483648"), FormField::Dots(Some(3), None));
    assert_eq!(read_field("Name", "ann"), FormField::Dots(None, None));
}

#[test]
fn a_form_becomes_a_ballot() {
    let ballot = ballot_from_form(&pairs(&[("1", "2"), ("name", "ann"), ("2", "0"), ("3", "1")])).unwrap();
    assert_eq!(ballot.voter, Some("ann".to_string()));
    assert_eq!(ballot.choices, map(&[(1, 2), (2, 0), (3, 1)]));
}

#[test]
fn a_form_without_name_becomes_a_ballot_without_voter() {
    let ballot = ballot_from_form(&pairs(&[("1", "2")])).unwrap();
    assert_eq!(ballot.voter, None);
    assert_eq!(ballot.choices, map(&[(1, 2)]));
    let ballot = ballot_from_form(&pairs(&[])).unwrap();
    assert_eq!(ballot.voter, None);
    assert_eq!(ballot.choices, map(&[]));
}

#[test]
fn a_later_field_overrides_an_earlier_one() {
    let ballot = ballot_from_form(&pairs(&[("1", "2"), ("name", "ann"), ("01", "3"), ("name", "bob")]))
        .unwrap();
    assert_eq!(ballot.voter, Some("bob".to_string()));
    assert_eq!(ballot.choices, map(&[(1, 3)]));
}

#[test]
fn a_form_with_a_field_that_is_no_number_makes_no_ballot() {
    assert!(ballot_from_form(&pairs(&[("1", "2"), ("x", "1")])).is_none());
    assert!(ballot_from_form(&pairs(&[("1", "many"), ("2", "1")])).is_none());
    assert!(ballot_from_form(&pairs(&[("", "")])).is_none());
}

#[test]
fn fields_that_were_read_become_a_ballot() {
    let fields = vec![
        FormField::Dots(Some(4), Some(1)),
        FormField::Name("ann".to_string()),
        FormField::Dots(Some(5), Some(-1)),
    ];
    let ballot = ballot_from_fields(&fields).unwrap();
    assert_eq!(ballot.voter, Some("ann".to_string()));
    assert_eq!(ballot.choices, map(&[(4, 1), (5, -1)]));
    assert!(ballot_from_fields(&vec![FormField::Dots(None, Some(1))]).is_none());
    assert!(ballot_from_fields(&vec![FormField::Dots(Some(1), None)]).is_none());
    assert!(ballot_from_fields(&vec![FormField::Name("a".to_string()), FormField::Dots(None, None)])
        .is_none());
}
