//! Dice-notation expressions: parsing, randomized evaluation under
//! advantage and disadvantage, and rendering as annotated text.
use vstd::prelude::*;
use vstd::string::*;
use crate::dice::{draw_table, tables, valid_table};
use crate::grammar::{errors_text, join_errors, parse, parse_expression};
use crate::model::{has_zero_size, term_limit, Roll, ValidationError};
use crate::selection::{evaluate, render, roll_text, validate};

pub mod dice;
pub mod grammar;
pub mod model;
pub mod notation;
pub mod outcome;
pub mod selection;
pub mod text;

verus! {

/// The message for a dice term without faces.
pub open spec fn zero_size_text() -> Seq<char> {
    "cannot roll dice of size 0"@
}

/// The message of a validation error.
pub fn validation_message(e: ValidationError) -> (s: String)
    ensures
        s@ == zero_size_text(),
{
    match e {
        ValidationError::ZeroSize => "cannot roll dice of size 0".to_owned(),
    }
}

/// The text of `roll` when its dice show `table`, or the message that says
/// why it cannot be rolled.
pub fn roll_with(roll: &Roll, table: &Vec<Vec<Vec<u32>>>) -> (r: Result<String, String>)
    requires
        roll.terms@.len() <= term_limit(),
        !has_zero_size(roll@.terms) ==> valid_table(roll@, tables(table@)),
    ensures
        has_zero_size(roll@.terms) ==> (r matches Err(m) && m@ == zero_size_text()),
        !has_zero_size(roll@.terms) ==> (r matches Ok(out) && out@ == roll_text(
            roll@,
            tables(table@),
        )),
{
    match evaluate(roll, table) {
        Err(e) => Err(validation_message(e)),
        Ok(result) => Ok(render(&result)),
    }
}

/// Whether `r` is a possible result of rolling the expression `expr`: the
/// joined syntax errors where it does not parse, the validation message
/// where a dice term has no faces, and else the text of the roll for some
/// valid draws.
pub open spec fn is_roll_of(expr: Seq<char>, r: Result<String, String>) -> bool {
    match parse_expression(expr) {
        Err(e) => r matches Err(m) && m@ == errors_text(seq![e], 1),
        Ok(v) => if has_zero_size(v.terms) {
            r matches Err(m) && m@ == zero_size_text()
        } else {
            r matches Ok(out) && exists|table: Seq<Seq<Seq<u32>>>|
                valid_table(v, table) && out@ == #[trigger] roll_text(v, table)
        },
    }
}

/// Parses the expression, throws its dice and renders the result.
pub fn roll(expr: &str) -> (r: Result<String, String>)
    ensures
        is_roll_of(expr@, r),
{
    match parse(expr) {
        Err(errors) => Err(join_errors(&errors)),
        Ok(parsed) => match validate(&parsed) {
            Err(e) => Err(validation_message(e)),
            Ok(()) => {
                let table = draw_table(&parsed);
                roll_with(&parsed, &table)
            },
        },
    }
}

/// Whether a message starts with the marker that asks for a roll.
pub open spec fn has_marker(text: Seq<char>) -> bool {
    text.len() > 0 && (text[0] == 'r' || text[0] == 'R')
}

/// The expression of a message that starts with the marker: all that
/// follows the marker.
pub fn message_body(text: &str) -> (r: Option<&str>)
    ensures
        has_marker(text@) ==> (r matches Some(body) && body@ == text@.subrange(
            1,
            text@.len() as int,
        )),
        !has_marker(text@) ==> r is None,
{
    let n = text.unicode_len();
    if n > 0 {
        let first = text.get_char(0);
        if first == 'r' || first == 'R' {
            return Some(text.substring_char(1, n));
        }
    }
    None
}

/// Whether `r` is a possible answer to a message of free text: nothing
/// where the marker is missing or what follows it cannot be rolled, and
/// else the text of the roll for some valid draws.
pub open spec fn is_answer_to(text: Seq<char>, r: Option<String>) -> bool {
    if !has_marker(text) {
        r is None
    } else {
        match parse_expression(text.subrange(1, text.len() as int)) {
            Err(_) => r is None,
            Ok(v) => if has_zero_size(v.terms) {
                r is None
            } else {
                r matches Some(out) && exists|table: Seq<Seq<Seq<u32>>>|
                    valid_table(v, table) && out@ == #[trigger] roll_text(v, table)
            },
        }
    }
}

/// Answers a message of free text: the result of rolling what follows the
/// marker, and nothing where there is no marker or the roll fails.
pub fn roll_message(text: &str) -> (r: Option<String>)
    ensures
        is_answer_to(text@, r),
{
    match message_body(text) {
        None => None,
        Some(body) => match roll(body) {
            Ok(out) => Some(out),
            Err(_) => None,
        },
    }
}

} // verus!
