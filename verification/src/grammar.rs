//! The expression grammar.
//!
//! ```text
//! Expression := TermList Ending | Ending
//! TermList   := Term ('+' Term)*
//! Term       := [Number] 'd' Number | ['-'] Number
//! Number     := '0' | NonZeroDigit Digit*
//! Ending     := ['a'+ | 'd'+] ['/' AnyText]
//! ```
//!
//! A term list made of a single literal is shorthand for one twenty-sided
//! die plus that literal; an expression without terms is one twenty-sided die.
use vstd::prelude::*;
use crate::model::{default_die, term_limit, Roll, RollView, Term};
use crate::text::{chars_of, decimal, push_decimal};
use vstd::string::*;

verus! {

/// Why a text is not an expression.
#[derive(Debug, Clone, Copy, PartialEq, Eq, Structural)]
pub enum SyntaxError {
    /// The character `found` at `position` continues no rule; only `+`, an
    /// advantage or disadvantage run, `/` or the end of the text may follow.
    Unexpected { position: usize, found: char },
    /// The number that starts at `position` exceeds 32 bits.
    NumberTooLarge { position: usize },
    /// The advantage or disadvantage run that starts at `position` exceeds
    /// 31 bits in length.
    RunTooLong { position: usize },
}

pub open spec fn is_digit(c: char) -> bool {
    '0' <= c && c <= '9'
}

pub open spec fn digit_value(c: char) -> nat {
    (c as u32 - '0' as u32) as nat
}

/// The index after the longest run of digits that starts at `i`.
pub open spec fn digits_end(s: Seq<char>, i: int) -> int
    decreases s.len() - i,
{
    if 0 <= i < s.len() && is_digit(s[i]) {
        digits_end(s, i + 1)
    } else {
        i
    }
}

/// The index after the number that starts at `i`, or `i` where none starts:
/// a number is a single `0`, or a non-zero digit and the digits after it.
pub open spec fn number_end(s: Seq<char>, i: int) -> int {
    if 0 <= i < s.len() && s[i] == '0' {
        i + 1
    } else {
        digits_end(s, i)
    }
}

/// The value of the digits in `s[i..j]`, read in base ten.
pub open spec fn digits_value(s: Seq<char>, i: int, j: int) -> nat
    decreases j - i,
{
    if j <= i {
        0
    } else {
        digits_value(s, i, j - 1) * 10 + digit_value(s[j - 1])
    }
}

/// A 32-bit magnitude read as a signed literal: magnitudes above the signed
/// range wrap around, and so does the negation of the lowest value.
pub open spec fn literal_value(negative: bool, magnitude: nat) -> int {
    let wrapped = if magnitude > 0x7fff_ffff {
        magnitude - 0x1_0000_0000
    } else {
        magnitude as int
    };
    if negative && wrapped != -0x8000_0000 {
        -wrapped
    } else {
        wrapped
    }
}

/// What stands at a position where a term may start.
pub enum TermParse {
    /// No term starts here.
    Absent,
    /// A term starts here, and its number at `position` is too large.
    TooLarge { position: int },
    /// The term, and the index after it.
    Found { term: Term, end: int },
}

/// The term that starts at index `i` of `s`. Dice take precedence: digits
/// before a `d` are a count only if a number follows the `d`.
pub open spec fn term_at(s: Seq<char>, i: int) -> TermParse {
    let e1 = number_end(s, i);
    if e1 > i {
        let first = digits_value(s, i, e1);
        let e2 = number_end(s, e1 + 1);
        if first > u32::MAX {
            TermParse::TooLarge { position: i }
        } else if e1 < s.len() && s[e1] == 'd' && e2 > e1 + 1 {
            let size = digits_value(s, e1 + 1, e2);
            if size > u32::MAX {
                TermParse::TooLarge { position: e1 + 1 }
            } else {
                TermParse::Found {
                    term: Term::Dice { count: first as u32, size: size as u32 },
                    end: e2,
                }
            }
        } else {
            TermParse::Found { term: Term::Literal(literal_value(false, first) as i32), end: e1 }
        }
    } else if 0 <= i < s.len() && (s[i] == 'd' || s[i] == '-') && number_end(s, i + 1) > i + 1 {
        let e2 = number_end(s, i + 1);
        let value = digits_value(s, i + 1, e2);
        if value > u32::MAX {
            TermParse::TooLarge { position: i + 1 }
        } else if s[i] == 'd' {
            TermParse::Found { term: Term::Dice { count: 1, size: value as u32 }, end: e2 }
        } else {
            TermParse::Found { term: Term::Literal(literal_value(true, value) as i32), end: e2 }
        }
    } else {
        TermParse::Absent
    }
}

/// The outcome of reading a list of terms.
pub enum ListParse {
    Failed(SyntaxError),
    /// The terms, and the index after the last of them.
    Found { terms: Seq<Term>, end: int },
}

/// Extends the terms `acc`, the last of which ends at `i`, by each `+` that
/// a term follows.
pub open spec fn terms_from(s: Seq<char>, i: int, acc: Seq<Term>) -> ListParse
    decreases s.len() - i,
{
    if 0 <= i < s.len() && s[i] == '+' {
        match term_at(s, i + 1) {
            TermParse::Absent => ListParse::Found { terms: acc, end: i },
            TermParse::TooLarge { position } => ListParse::Failed(
                SyntaxError::NumberTooLarge { position: position as usize },
            ),
            TermParse::Found { term, end } => {
                if i < end <= s.len() {
                    terms_from(s, end, acc.push(term))
                } else {
                    ListParse::Found { terms: acc, end: i }
                }
            },
        }
    } else {
        ListParse::Found { terms: acc, end: i }
    }
}

/// The index after the longest run of the character `c` that starts at `i`.
pub open spec fn run_end(s: Seq<char>, i: int, c: char) -> int
    decreases s.len() - i,
{
    if 0 <= i < s.len() && s[i] == c {
        run_end(s, i + 1, c)
    } else {
        i
    }
}

/// The advantageousness that the ending at index `i` gives: the length of a
/// run of `a`, or the negated length of a run of `d`, then either the end of
/// the text or a `/` with a comment.
pub open spec fn ending_at(s: Seq<char>, i: int) -> Result<int, SyntaxError> {
    let ea = run_end(s, i, 'a');
    let ed = run_end(s, i, 'd');
    let e = if ea > i {
        ea
    } else {
        ed
    };
    if e - i > i32::MAX {
        Err(SyntaxError::RunTooLong { position: i as usize })
    } else if e < s.len() && s[e] != '/' {
        Err(SyntaxError::Unexpected { position: e as usize, found: s[e] })
    } else if ea > i {
        Ok(ea - i)
    } else {
        Ok(i - ed)
    }
}

/// The terms of a roll whose term list is `terms`: a lone literal is a
/// modifier to one twenty-sided die.
pub open spec fn with_shorthand(terms: Seq<Term>) -> Seq<Term> {
    if terms.len() == 1 && terms[0] is Literal {
        seq![default_die(), terms[0]]
    } else {
        terms
    }
}

/// The roll that the expression `s` denotes, or why it denotes none.
pub open spec fn parse_expression(s: Seq<char>) -> Result<RollView, SyntaxError> {
    match term_at(s, 0) {
        TermParse::TooLarge { position } => Err(
            SyntaxError::NumberTooLarge { position: position as usize },
        ),
        TermParse::Absent => match ending_at(s, 0) {
            Err(e) => Err(e),
            Ok(adv) => Ok(RollView { terms: seq![default_die()], advantageousness: adv }),
        },
        TermParse::Found { term, end } => match terms_from(s, end, seq![term]) {
            ListParse::Failed(e) => Err(e),
            ListParse::Found { terms, end } => match ending_at(s, end) {
                Err(e) => Err(e),
                Ok(adv) => Ok(
                    RollView { terms: with_shorthand(terms), advantageousness: adv },
                ),
            },
        },
    }
}


fn is_digit_char(c: char) -> (b: bool)
    ensures
        b == is_digit(c),
{
    '0' <= c && c <= '9'
}

/// Reads the digits from `start` on: where they end, and their value if it
/// fits 32 bits.
fn scan_digits(s: &Vec<char>, start: usize) -> (r: (usize, Option<u32>))
    requires
        start <= s.len(),
    ensures
        r.0 == digits_end(s@, start as int),
        start <= r.0 <= s.len(),
        match r.1 {
            Some(v) => v == digits_value(s@, start as int, r.0 as int),
            None => digits_value(s@, start as int, r.0 as int) > u32::MAX,
        },
{
    let mut j: usize = start;
    let mut acc: u64 = 0;
    let mut over: bool = false;
    while j < s.len() && is_digit_char(s[j])
        invariant
            start <= j <= s.len(),
            digits_end(s@, start as int) == digits_end(s@, j as int),
            !over ==> acc == digits_value(s@, start as int, j as int) && acc <= u32::MAX,
            over ==> digits_value(s@, start as int, j as int) > u32::MAX,
        decreases s.len() - j,
    {
        let d: u64 = (s[j] as u32 - '0' as u32) as u64;
        assert(d == digit_value(s@[j as int]));
        assert(d <= 9);
        if !over {
            let next: u64 = acc * 10 + d;
            if next > 0xffff_ffff {
                over = true;
            } else {
                acc = next;
            }
        }
        j += 1;
    }
    (j, if over { None } else { Some(acc as u32) })
}

/// Reads the number that starts at `i`, if one does.
fn scan_number(s: &Vec<char>, i: usize) -> (r: (usize, Option<u32>))
    requires
        i <= s.len(),
    ensures
        r.0 == number_end(s@, i as int),
        i <= r.0 <= s.len(),
        match r.1 {
            Some(v) => v == digits_value(s@, i as int, r.0 as int),
            None => digits_value(s@, i as int, r.0 as int) > u32::MAX,
        },
{
    if i < s.len() && s[i] == '0' {
        assert(digits_value(s@, i as int, i as int) == 0);
        assert(digits_value(s@, i as int, i + 1) == 0);
        (i + 1, Some(0))
    } else {
        scan_digits(s, i)
    }
}

/// The signed literal of a magnitude.
fn to_literal(negative: bool, magnitude: u32) -> (v: i32)
    ensures
        v == literal_value(negative, magnitude as nat),
{
    let wrapped: i32 = if magnitude > 0x7fff_ffff {
        ((magnitude - 0x8000_0000) as i32) + i32::MIN
    } else {
        magnitude as i32
    };
    if negative && wrapped != i32::MIN {
        -wrapped
    } else {
        wrapped
    }
}

/// What the scanner found at a position where a term may start.
pub enum TermScan {
    Absent,
    TooLarge { position: usize },
    Found { term: Term, end: usize },
}

impl View for TermScan {
    type V = TermParse;

    open spec fn view(&self) -> TermParse {
        match *self {
            TermScan::Absent => TermParse::Absent,
            TermScan::TooLarge { position } => TermParse::TooLarge { position: position as int },
            TermScan::Found { term, end } => TermParse::Found { term, end: end as int },
        }
    }
}

/// Reads the term that starts at index `i`.
pub fn scan_term(s: &Vec<char>, i: usize) -> (r: TermScan)
    requires
        i <= s.len(),
    ensures
        r@ == term_at(s@, i as int),
        r matches TermScan::Found { end, .. } ==> i < end <= s.len(),
        r matches TermScan::TooLarge { position } ==> position <= s.len(),
{
    let (e1, first) = scan_number(s, i);
    if e1 > i {
        match first {
            None => TermScan::TooLarge { position: i },
            Some(first) => {
                if e1 < s.len() && s[e1] == 'd' {
                    let (e2, size) = scan_number(s, e1 + 1);
                    if e2 > e1 + 1 {
                        return match size {
                            None => TermScan::TooLarge { position: e1 + 1 },
                            Some(size) => TermScan::Found {
                                term: Term::Dice { count: first, size },
                                end: e2,
                            },
                        };
                    }
                }
                TermScan::Found { term: Term::Literal(to_literal(false, first)), end: e1 }
            },
        }
    } else if i < s.len() && (s[i] == 'd' || s[i] == '-') {
        let (e2, value) = scan_number(s, i + 1);
        if e2 > i + 1 {
            match value {
                None => TermScan::TooLarge { position: i + 1 },
                Some(value) => if s[i] == 'd' {
                    TermScan::Found { term: Term::Dice { count: 1, size: value }, end: e2 }
                } else {
                    TermScan::Found { term: Term::Literal(to_literal(true, value)), end: e2 }
                },
            }
        } else {
            TermScan::Absent
        }
    } else {
        TermScan::Absent
    }
}

/// Reads the terms that follow `first`, which ends at `start`.
fn scan_terms(s: &Vec<char>, first: Term, start: usize) -> (r: Result<
    (Vec<Term>, usize),
    SyntaxError,
>)
    requires
        1 <= start <= s.len(),
    ensures
        match terms_from(s@, start as int, seq![first]) {
            ListParse::Failed(e) => r == Err::<(Vec<Term>, usize), SyntaxError>(e),
            ListParse::Found { terms, end } => r matches Ok(p) && p.0@ == terms && p.1 == end
                && end <= s.len() && terms.len() >= 1 && 2 * terms.len() <= end + 1,
        },
{
    let mut terms: Vec<Term> = Vec::new();
    terms.push(first);
    let mut pos: usize = start;
    assert(terms@ =~= seq![first]);
    while pos < s.len() && s[pos] == '+'
        invariant
            pos <= s.len(),
            terms@.len() >= 1,
            2 * terms@.len() <= pos + 1,
            terms_from(s@, start as int, seq![first]) == terms_from(s@, pos as int, terms@),
        decreases s.len() - pos,
    {
        match scan_term(s, pos + 1) {
            TermScan::Absent => {
                return Ok((terms, pos));
            },
            TermScan::TooLarge { position } => {
                return Err(SyntaxError::NumberTooLarge { position });
            },
            TermScan::Found { term, end } => {
                terms.push(term);
                pos = end;
            },
        }
    }
    Ok((terms, pos))
}

/// Reads the run of `c` that starts at `i`.
fn scan_run(s: &Vec<char>, i: usize, c: char) -> (e: usize)
    requires
        i <= s.len(),
    ensures
        e == run_end(s@, i as int, c),
        i <= e <= s.len(),
{
    let mut j: usize = i;
    while j < s.len() && s[j] == c
        invariant
            i <= j <= s.len(),
            run_end(s@, i as int, c) == run_end(s@, j as int, c),
        decreases s.len() - j,
    {
        j += 1;
    }
    j
}

/// Reads the ending that starts at `i`.
fn scan_ending(s: &Vec<char>, i: usize) -> (r: Result<i32, SyntaxError>)
    requires
        i <= s.len(),
    ensures
        match ending_at(s@, i as int) {
            Ok(a) => r matches Ok(v) && v == a,
            Err(e) => r == Err::<i32, SyntaxError>(e),
        },
{
    let ea = scan_run(s, i, 'a');
    let ed = scan_run(s, i, 'd');
    let e = if ea > i {
        ea
    } else {
        ed
    };
    let n: usize = e - i;
    if n > 0x7fff_ffff {
        Err(SyntaxError::RunTooLong { position: i })
    } else if e < s.len() && s[e] != '/' {
        Err(SyntaxError::Unexpected { position: e, found: s[e] })
    } else if ea > i {
        Ok(n as i32)
    } else {
        Ok(-(n as i32))
    }
}

/// Parses the characters of an expression.
pub fn parse_chars(s: &Vec<char>) -> (r: Result<Roll, SyntaxError>)
    ensures
        match parse_expression(s@) {
            Ok(v) => r matches Ok(roll) && roll@ == v,
            Err(e) => r == Err::<Roll, SyntaxError>(e),
        },
        r matches Ok(roll) ==> roll.well_formed() && (roll.terms@.len() <= 2 || 2
            * roll.terms@.len() <= s@.len() + 1),
{
    match scan_term(s, 0) {
        TermScan::TooLarge { position } => Err(SyntaxError::NumberTooLarge { position }),
        TermScan::Absent => match scan_ending(s, 0) {
            Err(e) => Err(e),
            Ok(advantageousness) => {
                let mut terms: Vec<Term> = Vec::new();
                terms.push(Term::Dice { count: 1, size: 20 });
                assert(terms@ =~= seq![default_die()]);
                Ok(Roll { terms, advantageousness })
            },
        },
        TermScan::Found { term, end } => match scan_terms(s, term, end) {
            Err(e) => Err(e),
            Ok((list, end)) => match scan_ending(s, end) {
                Err(e) => Err(e),
                Ok(advantageousness) => {
                    let shorthand = list.len() == 1 && match list[0] {
                        Term::Literal(_) => true,
                        Term::Dice { .. } => false,
                    };
                    if shorthand {
                        let mut terms: Vec<Term> = Vec::new();
                        terms.push(Term::Dice { count: 1, size: 20 });
                        terms.push(list[0]);
                        assert(terms@ =~= with_shorthand(list@));
                        Ok(Roll { terms, advantageousness })
                    } else {
                        Ok(Roll { terms: list, advantageousness })
                    }
                },
            },
        },
    }
}

/// Parses an expression. On failure the list of errors is not empty.
pub fn parse(text: &str) -> (r: Result<Roll, Vec<SyntaxError>>)
    ensures
        is_parse_of(text@, r),
        r matches Ok(roll) ==> roll.well_formed() && roll.terms@.len() <= term_limit(),
{
    let chars = chars_of(text);
    match parse_chars(&chars) {
        Ok(roll) => Ok(roll),
        Err(e) => {
            let mut errors: Vec<SyntaxError> = Vec::new();
            errors.push(e);
            assert(errors@ =~= seq![e]);
            Err(errors)
        },
    }
}


/// The message of a syntax error.
pub open spec fn syntax_error_text(e: SyntaxError) -> Seq<char> {
    match e {
        SyntaxError::Unexpected { position, found } => "found '"@.push(found) + "' at position "@
            + decimal(position as nat) + ", expected a term, '+', 'a', 'd', '/' or the end"@,
        SyntaxError::NumberTooLarge { position } => "the number at position "@ + decimal(
            position as nat,
        ) + " is too large"@,
        SyntaxError::RunTooLong { position } => "the run at position "@ + decimal(position as nat)
            + " is too long"@,
    }
}

impl SyntaxError {
    /// The message of this error, with its position in characters from the
    /// start of the expression.
    pub fn message(&self) -> (s: String)
        ensures
            s@ == syntax_error_text(*self),
    {
        let mut out = String::new();
        match *self {
            SyntaxError::Unexpected { position, found } => {
                out.append("found '");
                out.push(found);
                out.append("' at position ");
                push_decimal(&mut out, position as u128);
                out.append(", expected a term, '+', 'a', 'd', '/' or the end");
            },
            SyntaxError::NumberTooLarge { position } => {
                out.append("the number at position ");
                push_decimal(&mut out, position as u128);
                out.append(" is too large");
            },
            SyntaxError::RunTooLong { position } => {
                out.append("the run at position ");
                push_decimal(&mut out, position as u128);
                out.append(" is too long");
            },
        }
        assert(out@ =~= syntax_error_text(*self));
        out
    }
}

/// The messages of the first `n` errors, with `"; "` between them.
pub open spec fn errors_text(errors: Seq<SyntaxError>, n: int) -> Seq<char>
    decreases n,
{
    if n <= 0 {
        "error"@
    } else if n == 1 {
        syntax_error_text(errors[0])
    } else {
        errors_text(errors, n - 1) + "; "@ + syntax_error_text(errors[n - 1])
    }
}

/// Joins the messages of all errors into one text.
pub fn join_errors(errors: &Vec<SyntaxError>) -> (s: String)
    ensures
        s@ == errors_text(errors@, errors@.len() as int),
{
    if errors.len() == 0 {
        return "error".to_owned();
    }
    let mut out = errors[0].message();
    let mut i: usize = 1;
    while i < errors.len()
        invariant
            1 <= i <= errors@.len(),
            out@ == errors_text(errors@, i as int),
        decreases errors@.len() - i,
    {
        out.append("; ");
        let message = errors[i].message();
        out.append(message.as_str());
        i += 1;
    }
    out
}

/// Whether `r` is what parsing `text` gives.
pub open spec fn is_parse_of(text: Seq<char>, r: Result<Roll, Vec<SyntaxError>>) -> bool {
    match parse_expression(text) {
        Ok(v) => r matches Ok(roll) && roll@ == v,
        Err(e) => r matches Err(errors) && errors@ == seq![e],
    }
}

/// Parsing is a function of the text: two results of parsing one text hold
/// the same terms and advantageousness, or the same errors.
pub proof fn lemma_parse_results_agree(
    text: Seq<char>,
    first: Result<Roll, Vec<SyntaxError>>,
    second: Result<Roll, Vec<SyntaxError>>,
)
    requires
        is_parse_of(text, first),
        is_parse_of(text, second),
    ensures
        first is Ok <==> second is Ok,
        first matches Ok(a) ==> second matches Ok(b) && a@ == b@,
        first matches Err(a) ==> second matches Err(b) && a@ == b@,
{
}

/// The empty expression is one twenty-sided die, rolled once.
pub proof fn lemma_empty_expression_is_d20()
    ensures
        parse_expression(Seq::<char>::empty()) == Ok::<RollView, SyntaxError>(
            RollView { terms: seq![default_die()], advantageousness: 0 },
        ),
{
}


/// A run of exactly `n` characters `c` from index `i` on ends at `i + n`.
pub proof fn lemma_run_end(s: Seq<char>, i: int, n: int, c: char)
    requires
        0 <= i,
        0 <= n,
        i + n <= s.len(),
        forall|k: int| i <= k < i + n ==> s[k] == c,
        i + n == s.len() || s[i + n] != c,
    ensures
        run_end(s, i, c) == i + n,
    decreases n,
{
    if n > 0 {
        lemma_run_end(s, i + 1, n - 1, c);
    }
}

/// An ending of `n` characters `a` gives the advantageousness `n`, and one
/// of `n` characters `d` gives `-n`, whatever comment follows.
pub proof fn lemma_ending_magnitude(s: Seq<char>, i: int, n: int, advantage: bool)
    requires
        0 <= i,
        1 <= n <= i32::MAX,
        i + n <= s.len(),
        forall|k: int| i <= k < i + n ==> s[k] == (if advantage { 'a' } else { 'd' }),
        i + n == s.len() || s[i + n] == '/',
    ensures
        ending_at(s, i) == Ok::<int, SyntaxError>(if advantage { n } else { -n }),
{
    lemma_run_end(s, i, n, if advantage { 'a' } else { 'd' });
    assert(s[i] == (if advantage { 'a' } else { 'd' }));
}


/// A run of digits ends inside the text, at or after its start.
pub proof fn lemma_digits_end_bounds(s: Seq<char>, i: int)
    requires
        0 <= i <= s.len(),
    ensures
        i <= digits_end(s, i) <= s.len(),
    decreases s.len() - i,
{
    if i < s.len() && is_digit(s[i]) {
        lemma_digits_end_bounds(s, i + 1);
    }
}

/// A run of one character ends inside the text, at or after its start.
pub proof fn lemma_run_end_bounds(s: Seq<char>, i: int, c: char)
    requires
        0 <= i <= s.len(),
    ensures
        i <= run_end(s, i, c) <= s.len(),
    decreases s.len() - i,
{
    if i < s.len() && s[i] == c {
        lemma_run_end_bounds(s, i + 1, c);
    }
}

/// A term ends inside the text, after its start.
pub proof fn lemma_term_at_bounds(s: Seq<char>, i: int)
    requires
        0 <= i <= s.len(),
    ensures
        term_at(s, i) matches TermParse::Found { end, .. } ==> i < end <= s.len(),
{
    lemma_digits_end_bounds(s, i);
    let e1 = number_end(s, i);
    if e1 < s.len() {
        lemma_digits_end_bounds(s, e1 + 1);
    }
    if i < s.len() {
        lemma_digits_end_bounds(s, i + 1);
    }
}

/// The digits that start inside `s` end at the same index when a text that
/// starts with no digit follows `s`.
proof fn lemma_digits_end_extends(s: Seq<char>, t: Seq<char>, i: int)
    requires
        0 <= i <= s.len(),
        t.len() > 0,
        !is_digit(t[0]),
    ensures
        digits_end(s + t, i) == digits_end(s, i),
    decreases s.len() - i,
{
    if i < s.len() {
        assert((s + t)[i] == s[i]);
        if is_digit(s[i]) {
            lemma_digits_end_extends(s, t, i + 1);
        }
    } else {
        assert((s + t)[i] == t[0]);
    }
}

/// The value of digits inside `s` is the same in any text that `s` starts.
proof fn lemma_digits_value_extends(s: Seq<char>, t: Seq<char>, i: int, j: int)
    requires
        0 <= i,
        j <= s.len(),
    ensures
        digits_value(s + t, i, j) == digits_value(s, i, j),
    decreases j - i,
{
    if j > i {
        lemma_digits_value_extends(s, t, i, j - 1);
        assert((s + t)[j - 1] == s[j - 1]);
    }
}

/// The run of `c` that starts inside `s` ends at the same index when a text
/// that starts with another character follows `s`.
proof fn lemma_run_end_extends(s: Seq<char>, t: Seq<char>, i: int, c: char)
    requires
        0 <= i <= s.len(),
        t.len() > 0,
        t[0] != c,
    ensures
        run_end(s + t, i, c) == run_end(s, i, c),
    decreases s.len() - i,
{
    if i < s.len() {
        assert((s + t)[i] == s[i]);
        if s[i] == c {
            lemma_run_end_extends(s, t, i + 1, c);
        }
    } else {
        assert((s + t)[i] == t[0]);
    }
}

/// The number that starts inside `s` is the same when a comment follows `s`.
proof fn lemma_number_extends(s: Seq<char>, t: Seq<char>, i: int)
    requires
        0 <= i <= s.len(),
        t.len() > 0,
        t[0] == '/',
    ensures
        number_end(s + t, i) == number_end(s, i),
        i <= number_end(s, i) <= s.len(),
        digits_value(s + t, i, number_end(s, i)) == digits_value(s, i, number_end(s, i)),
{
    lemma_digits_end_extends(s, t, i);
    lemma_digits_end_bounds(s, i);
    if i < s.len() {
        assert((s + t)[i] == s[i]);
    } else {
        assert((s + t)[i] == t[0]);
    }
    lemma_digits_value_extends(s, t, i, number_end(s, i));
}

/// The term that starts inside `s` is the same when a comment follows `s`.
proof fn lemma_term_at_extends(s: Seq<char>, t: Seq<char>, i: int)
    requires
        0 <= i <= s.len(),
        t.len() > 0,
        t[0] == '/',
    ensures
        term_at(s + t, i) == term_at(s, i),
{
    lemma_number_extends(s, t, i);
    let e1 = number_end(s, i);
    if e1 < s.len() {
        assert((s + t)[e1] == s[e1]);
        lemma_number_extends(s, t, e1 + 1);
    } else {
        assert((s + t)[e1] == t[0]);
    }
    if i < s.len() {
        assert((s + t)[i] == s[i]);
        lemma_number_extends(s, t, i + 1);
    } else {
        assert((s + t)[i] == t[0]);
    }
}

/// The list of terms inside `s` is the same when a comment follows `s`.
proof fn lemma_terms_from_extends(s: Seq<char>, t: Seq<char>, i: int, acc: Seq<Term>)
    requires
        0 <= i <= s.len(),
        t.len() > 0,
        t[0] == '/',
    ensures
        terms_from(s + t, i, acc) == terms_from(s, i, acc),
        terms_from(s, i, acc) matches ListParse::Found { end, .. } ==> i <= end <= s.len(),
    decreases s.len() - i,
{
    if i < s.len() {
        assert((s + t)[i] == s[i]);
        if s[i] == '+' {
            lemma_term_at_extends(s, t, i + 1);
            lemma_term_at_bounds(s, i + 1);
            match term_at(s, i + 1) {
                TermParse::Found { term, end } => {
                    lemma_terms_from_extends(s, t, end, acc.push(term));
                },
                _ => {},
            }
        }
    } else {
        assert((s + t)[i] == t[0]);
    }
}

/// An ending that `s` holds in full is the same when a comment follows `s`.
proof fn lemma_ending_at_extends(s: Seq<char>, t: Seq<char>, i: int)
    requires
        0 <= i <= s.len(),
        t.len() > 0,
        t[0] == '/',
        ending_at(s, i) is Ok,
    ensures
        ending_at(s + t, i) == ending_at(s, i),
{
    lemma_run_end_extends(s, t, i, 'a');
    lemma_run_end_extends(s, t, i, 'd');
    lemma_run_end_bounds(s, i, 'a');
    lemma_run_end_bounds(s, i, 'd');
    let e = if run_end(s, i, 'a') > i {
        run_end(s, i, 'a')
    } else {
        run_end(s, i, 'd')
    };
    if e < s.len() {
        assert((s + t)[e] == s[e]);
    } else {
        assert((s + t)[e] == t[0]);
    }
}

/// What follows a `/` is commentary: an expression denotes the same roll
/// with any comment after it.
pub proof fn lemma_comment_is_ignored(s: Seq<char>, comment: Seq<char>)
    requires
        parse_expression(s) is Ok,
    ensures
        parse_expression(s + seq!['/'] + comment) == parse_expression(s),
{
    let t = seq!['/'] + comment;
    assert(s + seq!['/'] + comment =~= s + t);
    lemma_term_at_extends(s, t, 0);
    lemma_term_at_bounds(s, 0);
    match term_at(s, 0) {
        TermParse::Found { term, end } => {
            lemma_terms_from_extends(s, t, end, seq![term]);
            match terms_from(s, end, seq![term]) {
                ListParse::Found { terms, end } => {
                    lemma_ending_at_extends(s, t, end);
                },
                _ => {},
            }
        },
        TermParse::Absent => {
            lemma_ending_at_extends(s, t, 0);
        },
        _ => {},
    }
}

} // verus!
