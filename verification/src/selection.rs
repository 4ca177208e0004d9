//! Trials of a roll: which one governs, and the text of the whole result.
use vstd::prelude::*;
use vstd::string::*;
use crate::dice::{tables, valid_table};
use crate::model::{
    has_zero_size, is_zero_size, term_limit, trial_count, Roll, RollView, Term, ValidationError,
};
use crate::outcome::{
    emphasized, evaluate_trial, joined, lemma_trial_sum_is_sum_of_terms, rows, sum_of_terms,
    trial_outcome, valid_draws, valid_trial, Maximality, OutcomeView, TrialOutcome,
};
use crate::text::{push_signed_decimal, signed_decimal};

verus! {

/// The outcomes of all trials of a roll, in order, and the index of the
/// one that governs.
#[derive(Debug, Clone, PartialEq, Eq)]
pub struct RollResult {
    pub outcomes: Vec<TrialOutcome>,
    pub selected: usize,
}

impl RollResult {
    /// The governing outcome is one of the outcomes.
    pub open spec fn well_formed(&self) -> bool {
        self.selected < self.outcomes@.len()
    }
}

/// The values of a list of outcomes.
pub open spec fn outcome_views(outcomes: Seq<TrialOutcome>) -> Seq<OutcomeView> {
    Seq::new(outcomes.len(), |i: int| outcomes[i]@)
}

/// The outcome of each trial of `terms` on its draws in `table`.
pub open spec fn outcomes_of(terms: Seq<Term>, table: Seq<Seq<Seq<u32>>>) -> Seq<OutcomeView> {
    Seq::new(table.len(), |t: int| trial_outcome(terms, table[t]))
}

/// Whether the sum `a` is strictly better than `b`: higher under advantage
/// or without either, lower under disadvantage.
pub open spec fn beats(a: int, b: int, advantageousness: int) -> bool {
    if advantageousness >= 0 {
        a > b
    } else {
        a < b
    }
}

/// The index of the governing outcome among the first `n`, found by a scan
/// from the left that moves on only to a strictly better sum.
pub open spec fn governing_index(outcomes: Seq<OutcomeView>, advantageousness: int, n: int) -> int
    decreases n,
{
    if n <= 1 {
        0
    } else {
        let best = governing_index(outcomes, advantageousness, n - 1);
        if beats(outcomes[n - 1].sum, outcomes[best].sum, advantageousness) {
            n - 1
        } else {
            best
        }
    }
}

/// Whether `k` is the first of the first `n` outcomes that none of them beats.
pub open spec fn is_first_best(
    outcomes: Seq<OutcomeView>,
    advantageousness: int,
    n: int,
    k: int,
) -> bool {
    &&& 0 <= k < n
    &&& forall|j: int|
        0 <= j < n ==> !beats(#[trigger] outcomes[j].sum, outcomes[k].sum, advantageousness)
    &&& forall|j: int|
        0 <= j < k ==> beats(outcomes[k].sum, #[trigger] outcomes[j].sum, advantageousness)
}

/// The governing outcome has the best sum of all trials, the highest under
/// advantage and the lowest under disadvantage, and among equal sums it is
/// the leftmost.
pub proof fn lemma_governing_is_first_best(
    outcomes: Seq<OutcomeView>,
    advantageousness: int,
    n: int,
)
    requires
        1 <= n <= outcomes.len(),
    ensures
        is_first_best(
            outcomes,
            advantageousness,
            n,
            governing_index(outcomes, advantageousness, n),
        ),
    decreases n,
{
    if n > 1 {
        lemma_governing_is_first_best(outcomes, advantageousness, n - 1);
    }
}

/// The strike-through marker around a trial that does not govern.
pub open spec fn strike_mark(governs: bool) -> Seq<char> {
    if governs {
        Seq::<char>::empty()
    } else {
        seq!['~', '~']
    }
}

/// The text of a sum, emphasized if all dice of the trial landed on the
/// same extreme.
pub open spec fn sum_text(sum: int, maximality: Maximality) -> Seq<char> {
    if maximality.max != maximality.min {
        emphasized(signed_decimal(sum))
    } else {
        signed_decimal(sum)
    }
}

/// The text of one trial: its terms, then its sum if it has more than one
/// die; struck through unless the trial governs.
pub open spec fn trial_text(outcome: OutcomeView, governs: bool) -> Seq<char> {
    let total = if outcome.die_count > 1 {
        seq![' ', '=', ' '] + sum_text(outcome.sum, outcome.maximality)
    } else {
        Seq::<char>::empty()
    };
    strike_mark(governs) + outcome.rendered + total + strike_mark(governs)
}

/// The text of the first `n` trials, with a space between them.
pub open spec fn result_text(outcomes: Seq<OutcomeView>, selected: int, n: int) -> Seq<char>
    decreases n,
{
    if n <= 0 {
        Seq::<char>::empty()
    } else {
        joined(
            result_text(outcomes, selected, n - 1),
            seq![' '],
            trial_text(outcomes[n - 1], n - 1 == selected),
        )
    }
}

/// The text that a roll gives when its dice show `table`.
pub open spec fn roll_text(roll: RollView, table: Seq<Seq<Seq<u32>>>) -> Seq<char> {
    let outcomes = outcomes_of(roll.terms, table);
    result_text(
        outcomes,
        governing_index(outcomes, roll.advantageousness, outcomes.len() as int),
        outcomes.len() as int,
    )
}

/// A trial with more than one die shows, after its terms and an equals
/// sign, the arithmetic sum of the sums of its terms.
pub proof fn lemma_trial_text_shows_sum_of_terms(
    terms: Seq<Term>,
    draws: Seq<Seq<u32>>,
    governs: bool,
)
    requires
        trial_outcome(terms, draws).die_count > 1,
    ensures
        trial_text(trial_outcome(terms, draws), governs) == strike_mark(governs) + trial_outcome(
            terms,
            draws,
        ).rendered + seq![' ', '=', ' '] + sum_text(
            sum_of_terms(terms, draws, terms.len() as int),
            trial_outcome(terms, draws).maximality,
        ) + strike_mark(governs),
{
    lemma_trial_sum_is_sum_of_terms(terms, draws, terms.len() as int);
    let outcome = trial_outcome(terms, draws);
    assert(trial_text(outcome, governs) =~= strike_mark(governs) + outcome.rendered + seq![
        ' ',
        '=',
        ' ',
    ] + sum_text(outcome.sum, outcome.maximality) + strike_mark(governs));
}

/// A roll on valid draws has one trial more than the magnitude of its
/// advantageousness, and the one trial that is left unmarked has the best
/// sum of all, the leftmost among equals.
pub proof fn lemma_roll_keeps_first_best(roll: RollView, table: Seq<Seq<Seq<u32>>>)
    requires
        valid_table(roll, table),
    ensures
        outcomes_of(roll.terms, table).len() == trial_count(roll.advantageousness),
        is_first_best(
            outcomes_of(roll.terms, table),
            roll.advantageousness,
            trial_count(roll.advantageousness),
            governing_index(
                outcomes_of(roll.terms, table),
                roll.advantageousness,
                trial_count(roll.advantageousness),
            ),
        ),
{
    lemma_governing_is_first_best(
        outcomes_of(roll.terms, table),
        roll.advantageousness,
        trial_count(roll.advantageousness),
    );
}

/// Checks that every dice term has at least one face.
pub fn validate(roll: &Roll) -> (r: Result<(), ValidationError>)
    ensures
        r is Err <==> has_zero_size(roll@.terms),
        r is Err ==> r == Err::<(), ValidationError>(ValidationError::ZeroSize),
{
    let mut i: usize = 0;
    while i < roll.terms.len()
        invariant
            i <= roll.terms@.len(),
            forall|k: int| 0 <= k < i ==> !is_zero_size(#[trigger] roll.terms@[k]),
        decreases roll.terms@.len() - i,
    {
        match roll.terms[i] {
            Term::Dice { count, size } => {
                if size == 0 {
                    assert(is_zero_size(roll.terms@[i as int]));
                    return Err(ValidationError::ZeroSize);
                }
            },
            Term::Literal(_) => {},
        }
        i += 1;
    }
    Ok(())
}

/// The index of the governing outcome: the first with the highest sum, or
/// under disadvantage the first with the lowest.
pub fn select(outcomes: &Vec<TrialOutcome>, advantageousness: i32) -> (k: usize)
    requires
        outcomes@.len() >= 1,
    ensures
        k == governing_index(
            outcome_views(outcomes@),
            advantageousness as int,
            outcomes@.len() as int,
        ),
        is_first_best(
            outcome_views(outcomes@),
            advantageousness as int,
            outcomes@.len() as int,
            k as int,
        ),
{
    let mut best: usize = 0;
    let mut i: usize = 1;
    while i < outcomes.len()
        invariant
            1 <= i <= outcomes@.len(),
            best < i,
            best == governing_index(outcome_views(outcomes@), advantageousness as int, i as int),
        decreases outcomes@.len() - i,
    {
        let better = if advantageousness >= 0 {
            outcomes[i].sum > outcomes[best].sum
        } else {
            outcomes[i].sum < outcomes[best].sum
        };
        if better {
            best = i;
        }
        i += 1;
    }
    proof {
        lemma_governing_is_first_best(
            outcome_views(outcomes@),
            advantageousness as int,
            outcomes@.len() as int,
        );
    }
    best
}

/// Evaluates every trial of `roll` on its draws in `table` and selects the
/// governing one.
pub fn evaluate(roll: &Roll, table: &Vec<Vec<Vec<u32>>>) -> (r: Result<RollResult, ValidationError>)
    requires
        roll.terms@.len() <= term_limit(),
        !has_zero_size(roll@.terms) ==> valid_table(roll@, tables(table@)),
    ensures
        has_zero_size(roll@.terms) ==> r == Err::<RollResult, ValidationError>(
            ValidationError::ZeroSize,
        ),
        !has_zero_size(roll@.terms) ==> (r matches Ok(result) && {
            let outcomes = outcome_views(result.outcomes@);
            &&& result.well_formed()
            &&& outcomes == outcomes_of(roll@.terms, tables(table@))
            &&& outcomes.len() == trial_count(roll@.advantageousness)
            &&& result.selected == governing_index(
                outcomes,
                roll@.advantageousness,
                outcomes.len() as int,
            )
            &&& is_first_best(
                outcomes,
                roll@.advantageousness,
                outcomes.len() as int,
                result.selected as int,
            )
        }),
{
    match validate(roll) {
        Err(e) => Err(e),
        Ok(()) => {
            let mut outcomes: Vec<TrialOutcome> = Vec::new();
            let mut t: usize = 0;
            while t < table.len()
                invariant
                    roll.terms@.len() <= term_limit(),
                    valid_table(roll@, tables(table@)),
                    t <= table@.len(),
                    outcomes@.len() == t,
                    forall|k: int|
                        0 <= k < t ==> (#[trigger] outcomes@[k])@ == trial_outcome(
                            roll@.terms,
                            rows(table@[k]@),
                        ),
                decreases table@.len() - t,
            {
                let draws = &table[t];
                proof {
                    let trial = tables(table@)[t as int];
                    assert(trial == rows(draws@));
                    assert(valid_trial(roll@.terms, trial));
                    assert forall|i: int| 0 <= i < draws@.len() implies (#[trigger] draws@[
                        i
                    ])@.len() <= u32::MAX by {
                        assert(trial[i] == draws@[i]@);
                        assert(valid_draws(roll@.terms[i], trial[i]));
                    }
                }
                let outcome = evaluate_trial(&roll.terms, draws);
                outcomes.push(outcome);
                t += 1;
            }
            assert(outcome_views(outcomes@) =~= outcomes_of(roll@.terms, tables(table@)));
            let selected = select(&outcomes, roll.advantageousness);
            Ok(RollResult { outcomes, selected })
        },
    }
}

fn push_total(out: &mut String, outcome: &TrialOutcome)
    ensures
        final(out)@ == old(out)@ + sum_text(outcome@.sum, outcome@.maximality),
{
    proof {
        reveal_strlit("**");
    }
    if outcome.maximality.max != outcome.maximality.min {
        out.append("**");
        push_signed_decimal(out, outcome.sum);
        out.append("**");
        assert(final(out)@ =~= old(out)@ + emphasized(signed_decimal(outcome@.sum)));
    } else {
        push_signed_decimal(out, outcome.sum);
    }
}

fn push_trial(out: &mut String, outcome: &TrialOutcome, governs: bool)
    ensures
        final(out)@ == joined(old(out)@, seq![' '], trial_text(outcome@, governs)),
{
    proof {
        reveal_strlit(" ");
        reveal_strlit("~~");
        reveal_strlit(" = ");
    }
    let ghost before = out@;
    if !out.as_str().is_empty() {
        out.append(" ");
    }
    let ghost start = out@;
    if !governs {
        out.append("~~");
    }
    out.append(outcome.rendered.as_str());
    if outcome.die_count > 1 {
        out.append(" = ");
        push_total(out, outcome);
    }
    if !governs {
        out.append("~~");
    }
    assert(out@ =~= start + trial_text(outcome@, governs));
    assert(out@ =~= joined(before, seq![' '], trial_text(outcome@, governs)));
}

/// Renders the trials in order, with a space between them.
pub fn render(result: &RollResult) -> (s: String)
    ensures
        s@ == result_text(
            outcome_views(result.outcomes@),
            result.selected as int,
            result.outcomes@.len() as int,
        ),
{
    let mut out = String::new();
    let mut i: usize = 0;
    while i < result.outcomes.len()
        invariant
            i <= result.outcomes@.len(),
            out@ == result_text(outcome_views(result.outcomes@), result.selected as int, i as int),
        decreases result.outcomes@.len() - i,
    {
        push_trial(&mut out, &result.outcomes[i], i == result.selected);
        i += 1;
    }
    out
}

} // verus!
