//! The ballot as a web form sends it: a list of named fields, of which the
//! field `name` holds the voter's label and every other field holds a choice's
//! `id` as its name and the dots given to that choice as its value.

use std::collections::HashMap;
use vstd::prelude::*;
use crate::validator::Ballot;

verus! {

/// The number that `str::parse::<i32>` reads from a text, if it reads one.
pub uninterp spec fn parsed_i32(text: Seq<char>) -> Option<i32>;

/// Reads a number with `str::parse::<i32>`. Trusted: the result is that
/// function's, named `parsed_i32`; nothing more is claimed of it.
#[verifier::external_body]
pub(crate) fn parse_i32(text: &str) -> (r: Option<i32>)
    ensures
        r == parsed_i32(text@),
{
    text.parse::<i32>().ok()
}

/// One field of a ballot form, as far as it could be read.
#[derive(Debug, PartialEq, Eq)]
pub enum FormField {
    /// The field `name`, with the voter's label.
    Name(String),
    /// Any other field: its name and its value, each read as a number where it is one.
    Dots(Option<i32>, Option<i32>),
}

pub enum FormFieldView {
    Name(Seq<char>),
    Dots(Option<i32>, Option<i32>),
}

impl View for FormField {
    type V = FormFieldView;

    open spec fn view(&self) -> FormFieldView {
        match *self {
            FormField::Name(label) => FormFieldView::Name(label@),
            FormField::Dots(choice, dots) => FormFieldView::Dots(choice, dots),
        }
    }
}

/// What a ballot holds, as mathematical values.
pub struct BallotView {
    pub voter: Option<Seq<char>>,
    pub choices: Map<i32, i32>,
}

/// The ballot as mathematical values.
pub open spec fn ballot_view(ballot: Ballot) -> BallotView {
    BallotView {
        voter: match ballot.voter {
            Some(label) => Some(label@),
            None => None,
        },
        choices: ballot.choices@,
    }
}

/// The name of the field that holds the voter's label.
pub open spec fn name_key() -> Seq<char> {
    "name"@
}

/// The field that a name and a value of a form make.
pub open spec fn field_of(key: Seq<char>, value: Seq<char>) -> FormFieldView {
    if key == name_key() {
        FormFieldView::Name(value)
    } else {
        FormFieldView::Dots(parsed_i32(key), parsed_i32(value))
    }
}

/// The ballot that the fields make, taken in order: a later field overrides
/// an earlier one for the same choice, and the last label is the voter's. There
/// is no ballot where a choice or its dots could not be read as a number.
pub open spec fn ballot_of(fields: Seq<FormFieldView>) -> Option<BallotView>
    decreases fields.len(),
{
    if fields.len() == 0 {
        Some(BallotView { voter: None, choices: Map::empty() })
    } else {
        match (ballot_of(fields.drop_last()), fields.last()) {
            (Some(ballot), FormFieldView::Name(label)) => Some(
                BallotView { voter: Some(label), ..ballot },
            ),
            (Some(ballot), FormFieldView::Dots(Some(choice), Some(dots))) => Some(
                BallotView { choices: ballot.choices.insert(choice, dots), ..ballot },
            ),
            _ => None,
        }
    }
}

/// The fields that the pairs of a form make, one for one.
pub open spec fn fields_of(form: Seq<(String, String)>) -> Seq<FormFieldView> {
    form.map_values(|pair: (String, String)| field_of(pair.0@, pair.1@))
}

/// The views of the fields, one for one.
pub open spec fn field_views(fields: Seq<FormField>) -> Seq<FormFieldView> {
    fields.map_values(|field: FormField| field@)
}

/// Reads one field of a form.
pub fn read_field(key: &str, value: &str) -> (field: FormField)
    ensures
        field@ == field_of(key@, value@),
{
    if is_name_key(key) {
        FormField::Name(value.to_owned())
    } else {
        FormField::Dots(parse_i32(key), parse_i32(value))
    }
}

/// Whether a field's name is `name`.
fn is_name_key(key: &str) -> (yes: bool)
    ensures
        yes == (key@ == name_key()),
{
    let owned = key.to_owned();
    let wanted = "name".to_owned();
    owned == wanted
}

/// The ballot that the fields make.
pub fn ballot_from_fields(fields: &Vec<FormField>) -> (r: Option<Ballot>)
    ensures
        match r {
            Some(ballot) => ballot_of(field_views(fields@)) == Some(ballot_view(ballot)),
            None => ballot_of(field_views(fields@)) is None,
        },
{
    let ghost all = field_views(fields@);
    let mut voter: Option<String> = None;
    let mut choices: HashMap<i32, i32> = HashMap::new();
    let mut i: usize = 0;
    proof {
        assert(all.take(0) =~= Seq::<FormFieldView>::empty());
    }
    while i < fields.len()
        invariant
            i <= fields@.len(),
            all == field_views(fields@),
            ballot_of(all.take(i as int)) == Some(
                ballot_view(Ballot { voter: voter, choices: choices }),
            ),
        decreases fields@.len() - i,
    {
        proof {
            assert(all.take(i + 1).drop_last() =~= all.take(i as int));
            assert(all.take(i + 1).last() == fields@[i as int]@);
        }
        match &fields[i] {
            FormField::Name(label) => {
                voter = Some(label.clone());
            },
            FormField::Dots(Some(choice), Some(dots)) => {
                choices.insert(*choice, *dots);
            },
            _ => {
                proof {
                    lemma_unreadable_stays_unreadable(all, i as int + 1);
                }
                return None;
            },
        }
        i = i + 1;
    }
    proof {
        assert(all.take(i as int) =~= all);
    }
    Some(Ballot { voter, choices })
}

/// Where the first `n` fields make no ballot, all of them make none.
pub proof fn lemma_unreadable_stays_unreadable(fields: Seq<FormFieldView>, n: int)
    requires
        0 <= n <= fields.len(),
        ballot_of(fields.take(n)) is None,
    ensures
        ballot_of(fields) is None,
    decreases fields.len() - n,
{
    if n < fields.len() {
        assert(fields.take(n + 1).drop_last() =~= fields.take(n));
        lemma_unreadable_stays_unreadable(fields, n + 1);
    } else {
        assert(fields.take(n) =~= fields);
    }
}

/// The ballot that a form makes, given as its pairs of name and value.
pub fn ballot_from_form(form: &Vec<(String, String)>) -> (r: Option<Ballot>)
    ensures
        match r {
            Some(ballot) => ballot_of(fields_of(form@)) == Some(ballot_view(ballot)),
            None => ballot_of(fields_of(form@)) is None,
        },
{
    let mut fields: Vec<FormField> = Vec::new();
    let mut i: usize = 0;
    proof {
        assert(field_views(fields@) =~= fields_of(form@).take(0));
    }
    while i < form.len()
        invariant
            i <= form@.len(),
            field_views(fields@) == fields_of(form@).take(i as int),
        decreases form@.len() - i,
    {
        let ghost before = field_views(fields@);
        let field = read_field(form[i].0.as_str(), form[i].1.as_str());
        proof {
            assert(field@ == fields_of(form@)[i as int]);
            assert(fields_of(form@).take(i + 1) =~= before.push(field@));
            assert(field_views(fields@.push(field)) =~= before.push(field@));
        }
        fields.push(field);
        i = i + 1;
    }
    proof {
        assert(fields_of(form@).take(i as int) =~= fields_of(form@));
    }
    ballot_from_fields(&fields)
}

} // verus!
