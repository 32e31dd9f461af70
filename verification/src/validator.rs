//! The ballot validator: what a voter handed in is checked against the
//! choices of the poll before any of it is recorded.

use std::collections::HashMap;
use std::collections::HashSet;
use vstd::prelude::*;
use vstd::std_specs::hash::spec_hash_map_iter;
use vstd::std_specs::iter::IteratorSpec;
use crate::error::CoreError;
use crate::models::{views, Choice, ChoiceView, InsertableVote, InsertableVoteView};
use crate::seq_facts::{lemma_filter_no_duplicates, lemma_filter_nothing, lemma_filter_take_next};

verus! {

/// A ballot as a voter hands it in.
#[derive(Debug)]
pub struct Ballot {
    /// The label under which the voter wishes to appear, if they gave one.
    pub voter: Option<String>,
    /// The dots given, by the `id` of the choice.
    pub choices: HashMap<i32, i32>,
}

/// A ballot that passed validation: the voter has a label, and no entry is
/// without weight.
#[derive(Debug, PartialEq, Eq)]
pub struct ValidBallot {
    pub voter: String,
    /// Pairs of a choice's `id` and the dots given to it.
    pub entries: Vec<(i32, i32)>,
}

pub struct ValidBallotView {
    pub voter: Seq<char>,
    pub entries: Seq<(i32, i32)>,
}

impl View for ValidBallot {
    type V = ValidBallotView;

    open spec fn view(&self) -> ValidBallotView {
        ValidBallotView { voter: self.voter@, entries: self.entries@ }
    }
}

/// The label of a voter who gave none.
pub open spec fn default_voter() -> Seq<char> {
    "Unknown"@
}

/// The label under which a voter is recorded.
pub open spec fn voter_or_default(voter: Option<String>) -> Seq<char> {
    match voter {
        Some(label) => label@,
        None => default_voter(),
    }
}

/// Whether every entry names one of the known choices.
pub open spec fn all_known(entries: Seq<(i32, i32)>, known: Set<i32>) -> bool {
    forall|i: int| 0 <= i < entries.len() ==> known.contains(#[trigger] entries[i].0)
}

/// The entries that carry weight, in order.
pub open spec fn weighty(entries: Seq<(i32, i32)>) -> Seq<(i32, i32)> {
    entries.filter(|e: (i32, i32)| e.1 != 0)
}

/// The pairs of a ballot that carry weight.
pub open spec fn weighty_pairs(choices: Map<i32, i32>) -> Set<(i32, i32)> {
    Set::new(|e: (i32, i32)| choices.contains_key(e.0) && choices[e.0] == e.1 && e.1 != 0)
}

/// The rows that record a valid ballot for poll `poll_id`: one for each entry, in order.
pub open spec fn vote_rows(poll_id: i32, ballot: ValidBallotView) -> Seq<InsertableVoteView> {
    ballot.entries.map_values(
        |e: (i32, i32)|
            InsertableVoteView { poll_id, choice_id: e.0, voter: ballot.voter, dots: e.1 },
    )
}

/// The `id`s of the choices.
pub open spec fn ids_of(choices: Seq<ChoiceView>) -> Set<i32> {
    choices.map_values(|c: ChoiceView| c.id).to_set()
}

/// The `id`s of the choices, as the set against which a ballot is checked.
pub fn known_ids(choices: &Vec<Choice>) -> (known: HashSet<i32>)
    ensures
        known@ == ids_of(views(choices@)),
{
    let ghost ids = views(choices@).map_values(|c: ChoiceView| c.id);
    let mut known: HashSet<i32> = HashSet::new();
    let mut i: usize = 0;
    proof {
        assert(known@ =~= ids.take(0).to_set());
    }
    while i < choices.len()
        invariant
            i <= choices@.len(),
            ids == views(choices@).map_values(|c: ChoiceView| c.id),
            known@ == ids.take(i as int).to_set(),
        decreases choices@.len() - i,
    {
        known.insert(choices[i].id);
        proof {
            assert(ids.take(i + 1) =~= ids.take(i as int).push(ids[i as int]));
            assert(ids.take(i as int).push(ids[i as int]).to_set() =~= ids.take(i as int).to_set().insert(
                ids[i as int],
            )) by {
                let shorter = ids.take(i as int);
                let longer = shorter.push(ids[i as int]);
                assert forall|x: i32| longer.to_set().contains(x) implies shorter.to_set().insert(
                    ids[i as int],
                ).contains(x) by {
                    let j = choose|j: int| 0 <= j < longer.len() && longer[j] == x;
                    if j < shorter.len() {
                        assert(shorter[j] == x);
                    }
                }
                assert forall|x: i32|
                    shorter.to_set().insert(ids[i as int]).contains(x) implies longer.to_set().contains(
                    x,
                ) by {
                    if x == ids[i as int] {
                        assert(longer[shorter.len() as int] == x);
                    } else {
                        let j = choose|j: int| 0 <= j < shorter.len() && shorter[j] == x;
                        assert(longer[j] == x);
                    }
                }
            }
        }
        i = i + 1;
    }
    proof {
        assert(ids.take(i as int) =~= ids);
    }
    known
}

/// The pairs of a ballot, each once, in the order in which the map yields them.
pub fn entries_of(choices: &HashMap<i32, i32>) -> (walk: Vec<(i32, i32)>)
    ensures
        walk@.no_duplicates(),
        walk@.to_set() == choices@.kv_pairs(),
{
    let mut walk: Vec<(i32, i32)> = Vec::new();
    for pair in it: choices.iter()
        invariant
            walk@ == it.seq().take(it.index()).unref(),
            it.seq() == spec_hash_map_iter(choices).remaining(),
            it.seq().no_duplicates(),
    {
        let (choice, dots) = pair;
        walk.push((*choice, *dots));
    }
    proof {
        let yielded = spec_hash_map_iter(choices).remaining();
        assert(yielded.take(yielded.len() as int) =~= yielded);
        assert forall|i: int, j: int| 0 <= i < j < walk@.len() implies walk@[i] != walk@[j] by {
            assert(yielded[i] != yielded[j]);
        }
    }
    walk
}

/// Validates the entries of a ballot, taken in a given order. A ballot that
/// names a choice outside `known` is refused whole; of one that is accepted,
/// the entries without weight are left out, and a voter who gave no label is
/// recorded under the default one.
pub fn validate_entries(
    voter: Option<String>,
    entries: &Vec<(i32, i32)>,
    known: &HashSet<i32>,
) -> (r: Result<ValidBallot, CoreError>)
    ensures
        match r {
            Ok(valid) => {
                &&& all_known(entries@, known@)
                &&& valid@.voter == voter_or_default(voter)
                &&& valid@.entries == weighty(entries@)
            },
            Err(e) => e == CoreError::Validation && !all_known(entries@, known@),
        },
{
    let ghost with_weight = |e: (i32, i32)| e.1 != 0;
    let mut kept: Vec<(i32, i32)> = Vec::new();
    let mut i: usize = 0;
    proof {
        lemma_filter_nothing(entries@.take(0), with_weight);
    }
    while i < entries.len()
        invariant
            i <= entries@.len(),
            with_weight == (|e: (i32, i32)| e.1 != 0),
            all_known(entries@.take(i as int), known@),
            kept@ == entries@.take(i as int).filter(with_weight),
        decreases entries@.len() - i,
    {
        let entry = entries[i];
        if !known.contains(&entry.0) {
            proof {
                assert(!known@.contains(entries@[i as int].0));
            }
            return Err(CoreError::Validation);
        }
        proof {
            lemma_filter_take_next(entries@, with_weight, i as int);
            assert forall|j: int| 0 <= j < i + 1 implies known@.contains(
                #[trigger] entries@.take(i + 1)[j].0,
            ) by {
                if j < i {
                    assert(entries@.take(i as int)[j] == entries@[j]);
                }
            }
        }
        if entry.1 != 0 {
            kept.push(entry);
        }
        i = i + 1;
    }
    proof {
        assert(entries@.take(i as int) =~= entries@);
    }
    let label = match voter {
        Some(label) => label,
        None => "Unknown".to_owned(),
    };
    Ok(ValidBallot { voter: label, entries: kept })
}

/// Validates a ballot against the choices of its poll. The entries of the
/// result are the ballot's pairs that carry weight, each once; their order is
/// the order in which the map yielded them.
pub fn validate(ballot: &Ballot, known: &HashSet<i32>) -> (r: Result<ValidBallot, CoreError>)
    ensures
        match r {
            Ok(valid) => {
                &&& ballot.choices@.dom().subset_of(known@)
                &&& valid@.voter == voter_or_default(ballot.voter)
                &&& valid@.entries.no_duplicates()
                &&& valid@.entries.to_set() == weighty_pairs(ballot.choices@)
            },
            Err(e) => e == CoreError::Validation && !ballot.choices@.dom().subset_of(known@),
        },
{
    let walk = entries_of(&ballot.choices);
    let voter = match &ballot.voter {
        Some(label) => Some(label.clone()),
        None => None,
    };
    let r = validate_entries(voter, &walk, known);
    proof {
        lemma_walk_covers(walk@, ballot.choices@, known@);
        lemma_weighty_of_walk(walk@, ballot.choices@);
    }
    r
}

/// A walk of a ballot names only known choices exactly if the ballot does.
pub proof fn lemma_walk_covers(walk: Seq<(i32, i32)>, choices: Map<i32, i32>, known: Set<i32>)
    requires
        walk.to_set() == choices.kv_pairs(),
    ensures
        all_known(walk, known) == choices.dom().subset_of(known),
{
    if all_known(walk, known) {
        assert forall|k: i32| choices.dom().contains(k) implies known.contains(k) by {
            assert(choices.kv_pairs().contains((k, choices[k])));
            assert(walk.to_set().contains((k, choices[k])));
            let i = choose|i: int| 0 <= i < walk.len() && walk[i] == (k, choices[k]);
            assert(known.contains(walk[i].0));
        }
    }
    if choices.dom().subset_of(known) {
        assert forall|i: int| 0 <= i < walk.len() implies known.contains(#[trigger] walk[i].0) by {
            assert(walk.to_set().contains(walk[i]));
            assert(choices.kv_pairs().contains(walk[i]));
        }
    }
}

/// The weighty entries of a walk without repetition are the weighty pairs of
/// the ballot, without repetition.
pub proof fn lemma_weighty_of_walk(walk: Seq<(i32, i32)>, choices: Map<i32, i32>)
    requires
        walk.no_duplicates(),
        walk.to_set() == choices.kv_pairs(),
    ensures
        weighty(walk).no_duplicates(),
        weighty(walk).to_set() == weighty_pairs(choices),
{
    let with_weight = |e: (i32, i32)| e.1 != 0;
    let kept = weighty(walk);
    lemma_filter_no_duplicates(walk, with_weight);
    assert forall|e: (i32, i32)| kept.to_set().contains(e) implies weighty_pairs(choices).contains(
        e,
    ) by {
        let i = choose|i: int| 0 <= i < kept.len() && kept[i] == e;
        walk.lemma_filter_pred(with_weight, i);
        walk.lemma_filter_contains_rev(with_weight, e);
        assert(walk.to_set().contains(e));
        assert(choices.kv_pairs().contains(e));
    }
    assert forall|e: (i32, i32)| weighty_pairs(choices).contains(e) implies kept.to_set().contains(
        e,
    ) by {
        assert(choices.kv_pairs().contains(e));
        assert(walk.to_set().contains(e));
        let i = choose|i: int| 0 <= i < walk.len() && walk[i] == e;
        walk.lemma_filter_contains(with_weight, i);
    }
    assert(kept.to_set() =~= weighty_pairs(choices));
}

impl ValidBallot {
    /// The rows that record the ballot for poll `poll_id`.
    pub fn rows(&self, poll_id: i32) -> (rows: Vec<InsertableVote>)
        ensures
            views(rows@) == vote_rows(poll_id, self@),
    {
        let mut rows: Vec<InsertableVote> = Vec::new();
        let mut i: usize = 0;
        while i < self.entries.len()
            invariant
                i <= self.entries@.len(),
                views(rows@) == vote_rows(poll_id, self@).take(i as int),
            decreases self.entries@.len() - i,
        {
            let entry = self.entries[i];
            let ghost before = views(rows@);
            rows.push(
                InsertableVote {
                    poll_id,
                    choice_id: entry.0,
                    voter: self.voter.clone(),
                    dots: entry.1,
                },
            );
            proof {
                assert(views(rows@) =~= before.push(vote_rows(poll_id, self@)[i as int]));
                assert(vote_rows(poll_id, self@).take(i + 1) =~= vote_rows(poll_id, self@).take(
                    i as int,
                ).push(vote_rows(poll_id, self@)[i as int]));
            }
            i = i + 1;
        }
        proof {
            assert(vote_rows(poll_id, self@).take(i as int) =~= vote_rows(poll_id, self@));
        }
        rows
    }
}

} // verus!
