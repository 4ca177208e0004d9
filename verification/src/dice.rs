//! Drawing the values that dice show.
use vstd::prelude::*;
use crate::model::{
    has_zero_size, is_zero_size, trial_count, Roll, RollView, Term, ValidationError,
};
use crate::outcome::{
    evaluate_term, rows, term_outcome, valid_draws, valid_trial, TrialOutcome,
};

verus! {

/// The draws of each trial of a roll, as sequences.
pub open spec fn tables(table: Seq<Vec<Vec<u32>>>) -> Seq<Seq<Seq<u32>>> {
    Seq::new(table.len(), |t: int| rows(table[t]@))
}

/// Whether `table` holds, for each trial of `roll`, valid draws for its terms.
pub open spec fn valid_table(roll: RollView, table: Seq<Seq<Seq<u32>>>) -> bool {
    &&& table.len() == trial_count(roll.advantageousness)
    &&& forall|t: int| 0 <= t < table.len() ==> valid_trial(roll.terms, #[trigger] table[t])
}

/// `rand::random_range` on the inclusive range from `low` to `high`, drawn
/// from the thread's generator. The range is not empty, so the call returns,
/// and with a value inside the range; nothing else is claimed of the value.
#[verifier::external_body]
fn random_between(low: u32, high: u32) -> (value: u32)
    requires
        low <= high,
    ensures
        low <= value <= high,
{
    rand::random_range(low..=high)
}

/// Throws one die of `size` faces.
pub fn draw_die(size: u32) -> (value: u32)
    requires
        size >= 1,
    ensures
        1 <= value <= size,
{
    random_between(1, size)
}

/// Throws `count` dice of `size` faces.
pub fn draw_dice(count: u32, size: u32) -> (draws: Vec<u32>)
    requires
        size >= 1,
    ensures
        draws@.len() == count,
        forall|i: int| 0 <= i < draws@.len() ==> 1 <= #[trigger] draws@[i] <= size,
{
    let mut draws: Vec<u32> = Vec::new();
    let mut i: u32 = 0;
    while i < count
        invariant
            size >= 1,
            i <= count,
            draws@.len() == i,
            forall|k: int| 0 <= k < draws@.len() ==> 1 <= #[trigger] draws@[k] <= size,
        decreases count - i,
    {
        let value = draw_die(size);
        draws.push(value);
        i += 1;
    }
    draws
}

/// Throws the dice of one term; a literal has none.
pub fn draw_term(term: Term) -> (draws: Vec<u32>)
    requires
        !is_zero_size(term),
    ensures
        valid_draws(term, draws@),
{
    match term {
        Term::Dice { count, size } => draw_dice(count, size),
        Term::Literal(_) => Vec::new(),
    }
}

/// Evaluates one term on dice thrown for it: a validation error for dice
/// without faces, and else the outcome of the term for some valid draws.
pub fn roll_term(term: Term) -> (r: Result<TrialOutcome, ValidationError>)
    ensures
        is_zero_size(term) ==> r == Err::<TrialOutcome, ValidationError>(ValidationError::ZeroSize),
        !is_zero_size(term) ==> (r matches Ok(outcome) && exists|draws: Seq<u32>|
            valid_draws(term, draws) && outcome@ == #[trigger] term_outcome(term, draws)),
{
    let zero = match term {
        Term::Dice { count, size } => size == 0,
        Term::Literal(_) => false,
    };
    if zero {
        Err(ValidationError::ZeroSize)
    } else {
        let draws = draw_term(term);
        let outcome = evaluate_term(term, &draws);
        assert(outcome@ == term_outcome(term, draws@));
        Ok(outcome)
    }
}

/// Throws the dice of every term, for one trial.
pub fn draw_trial(terms: &Vec<Term>) -> (draws: Vec<Vec<u32>>)
    requires
        !has_zero_size(terms@),
    ensures
        valid_trial(terms@, rows(draws@)),
{
    let mut draws: Vec<Vec<u32>> = Vec::new();
    let mut i: usize = 0;
    while i < terms.len()
        invariant
            !has_zero_size(terms@),
            i <= terms@.len(),
            draws@.len() == i,
            forall|k: int| 0 <= k < i ==> valid_draws(terms@[k], (#[trigger] draws@[k])@),
        decreases terms@.len() - i,
    {
        assert(!is_zero_size(terms@[i as int]));
        let row = draw_term(terms[i]);
        draws.push(row);
        i += 1;
    }
    assert forall|k: int| 0 <= k < terms@.len() implies valid_draws(
        terms@[k],
        #[trigger] rows(draws@)[k],
    ) by {
        assert(rows(draws@)[k] == draws@[k]@);
    }
    draws
}

/// The number of trials of a roll.
pub fn trials_of(advantageousness: i32) -> (n: u32)
    ensures
        n == trial_count(advantageousness as int),
{
    if advantageousness >= 0 {
        advantageousness as u32 + 1
    } else {
        (-(advantageousness + 1)) as u32 + 2
    }
}

/// Throws all the dice of a roll: every term anew for each trial.
pub fn draw_table(roll: &Roll) -> (table: Vec<Vec<Vec<u32>>>)
    requires
        !has_zero_size(roll@.terms),
    ensures
        valid_table(roll@, tables(table@)),
{
    let trials = trials_of(roll.advantageousness);
    let mut table: Vec<Vec<Vec<u32>>> = Vec::new();
    let mut t: u32 = 0;
    while t < trials
        invariant
            !has_zero_size(roll@.terms),
            t <= trials,
            table@.len() == t,
            forall|k: int| 0 <= k < t ==> valid_trial(roll@.terms, rows((#[trigger] table@[k])@)),
        decreases trials - t,
    {
        let draws = draw_trial(&roll.terms);
        table.push(draws);
        t += 1;
    }
    assert forall|k: int| 0 <= k < table@.len() implies valid_trial(
        roll@.terms,
        #[trigger] tables(table@)[k],
    ) by {
        assert(tables(table@)[k] == rows(table@[k]@));
    }
    table
}

} // verus!
