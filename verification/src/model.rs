//! The structured form of a dice expression.
use vstd::prelude::*;

verus! {

/// One additive component of an expression.
#[derive(Debug, Clone, Copy, PartialEq, Eq, Structural)]
pub enum Term {
    /// `count` dice of `size` faces each.
    Dice { count: u32, size: u32 },
    /// A fixed signed modifier.
    Literal(i32),
}

/// A parsed expression: its terms in order, and how many extra trials to
/// make. A positive `advantageousness` keeps the best trial, a negative one
/// the worst.
#[derive(Debug, Clone, PartialEq, Eq)]
pub struct Roll {
    pub terms: Vec<Term>,
    pub advantageousness: i32,
}

/// Why a well-formed expression cannot be rolled.
#[derive(Debug, Clone, Copy, PartialEq, Eq, Structural)]
pub enum ValidationError {
    /// A dice term has no faces.
    ZeroSize,
}

/// The mathematical value of a [`Roll`].
pub struct RollView {
    pub terms: Seq<Term>,
    pub advantageousness: int,
}

impl View for Roll {
    type V = RollView;

    open spec fn view(&self) -> RollView {
        RollView { terms: self.terms@, advantageousness: self.advantageousness as int }
    }
}

impl Roll {
    /// A roll has at least one term.
    pub open spec fn well_formed(&self) -> bool {
        self.terms@.len() >= 1
    }
}

/// The roll that an expression without terms stands for: one twenty-sided die.
pub open spec fn default_die() -> Term {
    Term::Dice { count: 1, size: 20 }
}

/// Whether some dice term of `terms` has no faces.
pub open spec fn has_zero_size(terms: Seq<Term>) -> bool {
    exists|i: int| 0 <= i < terms.len() && is_zero_size(#[trigger] terms[i])
}

/// Whether `term` is a dice term without faces.
pub open spec fn is_zero_size(term: Term) -> bool {
    term matches Term::Dice { size, .. } && size == 0
}

/// The number of trials that a roll makes.
pub open spec fn trial_count(advantageousness: int) -> int {
    if advantageousness >= 0 {
        advantageousness + 1
    } else {
        1 - advantageousness
    }
}

/// The largest number of terms whose total is sure to fit the accumulator.
pub open spec fn term_limit() -> int {
    0x8000_0000_0000_0000
}

} // verus!
