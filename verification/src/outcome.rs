//! Evaluation of terms and trials on drawn values.
use vstd::prelude::*;
use vstd::string::*;
use crate::model::{term_limit, Term};
use crate::text::{decimal, push_decimal, push_signed_decimal, signed_decimal};

verus! {

/// Whether every die of a unit landed on its highest face (`max`), and
/// whether every die landed on one (`min`). A unit without dice has both.
#[derive(Debug, Clone, Copy, PartialEq, Eq, Structural)]
pub struct Maximality {
    pub max: bool,
    pub min: bool,
}

/// What a term, or a whole trial, came to.
#[derive(Debug, Clone, PartialEq, Eq)]
pub struct TrialOutcome {
    pub sum: i128,
    pub rendered: String,
    pub maximality: Maximality,
    pub die_count: u128,
}

/// The mathematical value of a [`TrialOutcome`].
pub struct OutcomeView {
    pub sum: int,
    pub rendered: Seq<char>,
    pub maximality: Maximality,
    pub die_count: nat,
}

impl View for TrialOutcome {
    type V = OutcomeView;

    open spec fn view(&self) -> OutcomeView {
        OutcomeView {
            sum: self.sum as int,
            rendered: self.rendered@,
            maximality: self.maximality,
            die_count: self.die_count as nat,
        }
    }
}

/// The draws of each term of a trial, as sequences.
pub open spec fn rows(draws: Seq<Vec<u32>>) -> Seq<Seq<u32>> {
    Seq::new(draws.len(), |i: int| draws[i]@)
}

/// A die is notable when it shows one or its highest face, unless it has a
/// single face.
pub open spec fn is_notable(value: u32, size: u32) -> bool {
    (value == 1 || value == size) && size != 1
}

/// A text between emphasis markers.
pub open spec fn emphasized(t: Seq<char>) -> Seq<char> {
    seq!['*', '*'] + t + seq!['*', '*']
}

/// The text of one die.
pub open spec fn die_text(value: u32, size: u32) -> Seq<char> {
    if is_notable(value, size) {
        emphasized(decimal(value as nat))
    } else {
        decimal(value as nat)
    }
}

/// `item` after `acc`, with `sep` between them unless `acc` is empty.
pub open spec fn joined(acc: Seq<char>, sep: Seq<char>, item: Seq<char>) -> Seq<char> {
    if acc.len() == 0 {
        item
    } else {
        acc + sep + item
    }
}

/// The outcome of nothing: the unit of aggregation.
pub open spec fn empty_outcome() -> OutcomeView {
    OutcomeView {
        sum: 0,
        rendered: Seq::empty(),
        maximality: Maximality { max: true, min: true },
        die_count: 0,
    }
}

/// `acc` with one more die of `size` faces that shows `value`.
pub open spec fn with_die(acc: OutcomeView, value: u32, size: u32) -> OutcomeView {
    OutcomeView {
        sum: acc.sum + value,
        rendered: joined(acc.rendered, seq![' '], die_text(value, size)),
        maximality: Maximality {
            max: acc.maximality.max && value == size,
            min: acc.maximality.min && value == 1,
        },
        die_count: acc.die_count + 1,
    }
}

/// The outcome of a group of dice of `size` faces that show `draws`.
pub open spec fn dice_outcome(draws: Seq<u32>, size: u32) -> OutcomeView
    decreases draws.len(),
{
    if draws.len() == 0 {
        empty_outcome()
    } else {
        with_die(dice_outcome(draws.drop_last(), size), draws.last(), size)
    }
}

/// The outcome of a literal: it counts as one die and is extreme both ways.
pub open spec fn literal_outcome(value: i32) -> OutcomeView {
    OutcomeView {
        sum: value as int,
        rendered: signed_decimal(value as int),
        maximality: Maximality { max: true, min: true },
        die_count: 1,
    }
}

/// The outcome of one term whose dice show `draws`.
pub open spec fn term_outcome(term: Term, draws: Seq<u32>) -> OutcomeView {
    match term {
        Term::Dice { count, size } => dice_outcome(draws, size),
        Term::Literal(value) => literal_outcome(value),
    }
}

/// `acc` with the outcome of one more term folded in.
pub open spec fn combined(acc: OutcomeView, term: OutcomeView) -> OutcomeView {
    OutcomeView {
        sum: acc.sum + term.sum,
        rendered: joined(acc.rendered, seq![' ', '+', ' '], term.rendered),
        maximality: Maximality {
            max: acc.maximality.max && term.maximality.max,
            min: acc.maximality.min && term.maximality.min,
        },
        die_count: acc.die_count + term.die_count,
    }
}

/// The outcome of the first `n` terms of a trial, folded left to right.
pub open spec fn partial_outcome(terms: Seq<Term>, draws: Seq<Seq<u32>>, n: int) -> OutcomeView
    decreases n,
{
    if n <= 0 {
        empty_outcome()
    } else {
        combined(partial_outcome(terms, draws, n - 1), term_outcome(terms[n - 1], draws[n - 1]))
    }
}

/// The outcome of one trial.
pub open spec fn trial_outcome(terms: Seq<Term>, draws: Seq<Seq<u32>>) -> OutcomeView {
    partial_outcome(terms, draws, terms.len() as int)
}

/// The sum of the first `n` terms' own sums.
pub open spec fn sum_of_terms(terms: Seq<Term>, draws: Seq<Seq<u32>>, n: int) -> int
    decreases n,
{
    if n <= 0 {
        0
    } else {
        sum_of_terms(terms, draws, n - 1) + term_outcome(terms[n - 1], draws[n - 1]).sum
    }
}

/// The sum of a trial is the arithmetic sum of the sums of its terms.
pub proof fn lemma_trial_sum_is_sum_of_terms(terms: Seq<Term>, draws: Seq<Seq<u32>>, n: int)
    ensures
        partial_outcome(terms, draws, n).sum == sum_of_terms(terms, draws, n),
    decreases n,
{
    if n > 0 {
        lemma_trial_sum_is_sum_of_terms(terms, draws, n - 1);
    }
}

/// Whether `draws` are what `term` can show: one value per die, each from
/// one to the die's size; none for a literal.
pub open spec fn valid_draws(term: Term, draws: Seq<u32>) -> bool {
    match term {
        Term::Dice { count, size } => draws.len() == count && forall|i: int|
            0 <= i < draws.len() ==> 1 <= #[trigger] draws[i] <= size,
        Term::Literal(_) => draws.len() == 0,
    }
}

/// Whether `draws` holds valid draws for each of `terms`.
pub open spec fn valid_trial(terms: Seq<Term>, draws: Seq<Seq<u32>>) -> bool {
    &&& draws.len() == terms.len()
    &&& forall|i: int| 0 <= i < terms.len() ==> valid_draws(terms[i], #[trigger] draws[i])
}

/// The largest sum, in magnitude, that one term can come to.
pub open spec fn term_bound() -> int {
    0xffff_fffe_0000_0001
}

fn push_die(rendered: &mut String, value: u32, size: u32)
    ensures
        final(rendered)@ == joined(old(rendered)@, seq![' '], die_text(value, size)),
{
    proof {
        reveal_strlit(" ");
        reveal_strlit("**");
    }
    if !rendered.as_str().is_empty() {
        rendered.append(" ");
    }
    if (value == 1 || value == size) && size != 1 {
        rendered.append("**");
        push_decimal(rendered, value as u128);
        rendered.append("**");
    } else {
        push_decimal(rendered, value as u128);
    }
    assert(final(rendered)@ =~= joined(old(rendered)@, seq![' '], die_text(value, size)));
}

/// Evaluates a group of dice of `size` faces on the values they show.
pub fn evaluate_dice(draws: &Vec<u32>, size: u32) -> (r: TrialOutcome)
    requires
        draws@.len() <= u32::MAX,
    ensures
        r@ == dice_outcome(draws@, size),
        0 <= r.sum <= term_bound(),
        r.die_count == draws@.len(),
{
    let mut sum: i128 = 0;
    let mut rendered = String::new();
    let mut max = true;
    let mut min = true;
    let mut die_count: u128 = 0;
    let mut i: usize = 0;
    while i < draws.len()
        invariant
            i <= draws@.len() <= u32::MAX,
            0 <= sum <= 0xffff_ffff * i,
            die_count == i,
            dice_outcome(draws@.take(i as int), size) == (OutcomeView {
                sum: sum as int,
                rendered: rendered@,
                maximality: Maximality { max, min },
                die_count: die_count as nat,
            }),
        decreases draws@.len() - i,
    {
        let value = draws[i];
        proof {
            assert(draws@.take(i + 1).drop_last() =~= draws@.take(i as int));
            assert(draws@.take(i + 1).last() == value);
        }
        sum = sum + value as i128;
        push_die(&mut rendered, value, size);
        max = max && value == size;
        min = min && value == 1;
        die_count = die_count + 1;
        i += 1;
    }
    assert(draws@.take(i as int) =~= draws@);
    TrialOutcome { sum, rendered, maximality: Maximality { max, min }, die_count }
}

/// Evaluates a literal.
pub fn evaluate_literal(value: i32) -> (r: TrialOutcome)
    ensures
        r@ == literal_outcome(value),
{
    let mut rendered = String::new();
    push_signed_decimal(&mut rendered, value as i128);
    assert(rendered@ =~= signed_decimal(value as int));
    TrialOutcome {
        sum: value as i128,
        rendered,
        maximality: Maximality { max: true, min: true },
        die_count: 1,
    }
}

/// Evaluates one term on the values that its dice show.
pub fn evaluate_term(term: Term, draws: &Vec<u32>) -> (r: TrialOutcome)
    requires
        draws@.len() <= u32::MAX,
    ensures
        r@ == term_outcome(term, draws@),
        -term_bound() <= r.sum <= term_bound(),
        r.die_count <= u32::MAX,
{
    match term {
        Term::Dice { count, size } => evaluate_dice(draws, size),
        Term::Literal(value) => evaluate_literal(value),
    }
}

/// Folds the outcome of one more term into `acc`.
pub fn combine(acc: TrialOutcome, term: &TrialOutcome) -> (r: TrialOutcome)
    requires
        i128::MIN <= acc.sum + term.sum <= i128::MAX,
        acc.die_count + term.die_count <= u128::MAX,
    ensures
        r@ == combined(acc@, term@),
{
    proof {
        reveal_strlit(" + ");
    }
    let mut rendered = acc.rendered;
    if !rendered.as_str().is_empty() {
        rendered.append(" + ");
    }
    rendered.append(term.rendered.as_str());
    assert(rendered@ =~= joined(acc.rendered@, seq![' ', '+', ' '], term.rendered@));
    TrialOutcome {
        sum: acc.sum + term.sum,
        rendered,
        maximality: Maximality {
            max: acc.maximality.max && term.maximality.max,
            min: acc.maximality.min && term.maximality.min,
        },
        die_count: acc.die_count + term.die_count,
    }
}

/// Evaluates one trial: every term on its own draws, folded left to right.
pub fn evaluate_trial(terms: &Vec<Term>, draws: &Vec<Vec<u32>>) -> (r: TrialOutcome)
    requires
        terms@.len() <= term_limit(),
        draws@.len() == terms@.len(),
        forall|i: int| 0 <= i < draws@.len() ==> (#[trigger] draws@[i])@.len() <= u32::MAX,
    ensures
        r@ == trial_outcome(terms@, rows(draws@)),
{
    let mut acc = TrialOutcome {
        sum: 0,
        rendered: String::new(),
        maximality: Maximality { max: true, min: true },
        die_count: 0,
    };
    let mut i: usize = 0;
    while i < terms.len()
        invariant
            i <= terms@.len() <= term_limit(),
            draws@.len() == terms@.len(),
            forall|i: int| 0 <= i < draws@.len() ==> (#[trigger] draws@[i])@.len() <= u32::MAX,
            acc@ == partial_outcome(terms@, rows(draws@), i as int),
            -0xffff_fffe_0000_0001 * i <= acc.sum <= 0xffff_fffe_0000_0001 * i,
            acc.die_count <= 0xffff_ffff * i,
        decreases terms@.len() - i,
    {
        let outcome = evaluate_term(terms[i], &draws[i]);
        assert(rows(draws@)[i as int] == draws@[i as int]@);
        acc = combine(acc, &outcome);
        i += 1;
    }
    acc
}

} // verus!
