//! Writing rolls in the notation: the text of a roll, and the proof that
//! the grammar reads it back.
use vstd::prelude::*;
use crate::grammar::{
    digits_end, digits_value, is_digit, lemma_ending_magnitude, literal_value, number_end,
    parse_expression, term_at, terms_from, with_shorthand, ListParse, SyntaxError, TermParse,
};
use crate::model::{RollView, Term};
use crate::text::{decimal, signed_decimal};

verus! {

/// The text of a term: count, `d` and size for dice, the signed decimal for
/// a literal.
pub open spec fn term_text(term: Term) -> Seq<char> {
    match term {
        Term::Dice { count, size } => decimal(count as nat) + seq!['d'] + decimal(size as nat),
        Term::Literal(value) => signed_decimal(value as int),
    }
}

/// Whether `t` stands in `s` from index `i` on.
pub open spec fn stands_at(s: Seq<char>, i: int, t: Seq<char>) -> bool {
    &&& 0 <= i
    &&& i + t.len() <= s.len()
    &&& s.subrange(i, i + t.len()) == t
}

/// Decimal text is made of digits, and starts with a zero only for zero.
pub proof fn lemma_decimal_digits(n: nat)
    ensures
        decimal(n).len() >= 1,
        forall|k: int| 0 <= k < decimal(n).len() ==> is_digit(#[trigger] decimal(n)[k]),
        n > 0 ==> decimal(n)[0] != '0',
        n == 0 ==> decimal(n).len() == 1,
    decreases n,
{
    if n >= 10 {
        lemma_decimal_digits(n / 10);
    }
}

/// Digits from `i` up to `j`, with none at `j`, end at `j`.
pub proof fn lemma_digits_end_run(s: Seq<char>, i: int, j: int)
    requires
        0 <= i <= j <= s.len(),
        forall|k: int| i <= k < j ==> is_digit(#[trigger] s[k]),
        j == s.len() || !is_digit(s[j]),
    ensures
        digits_end(s, i) == j,
    decreases j - i,
{
    if i < j {
        lemma_digits_end_run(s, i + 1, j);
    }
}

/// The digits of a decimal text have the value that the text is of.
pub proof fn lemma_digits_value_decimal(s: Seq<char>, i: int, n: nat)
    requires
        stands_at(s, i, decimal(n)),
    ensures
        digits_value(s, i, i + decimal(n).len()) == n,
    decreases n,
{
    let len = decimal(n).len() as int;
    lemma_decimal_digits(n);
    assert(s[i + len - 1] == s.subrange(i, i + len)[len - 1]);
    if n >= 10 {
        let shorter = decimal(n / 10);
        assert(s.subrange(i, i + shorter.len()) =~= shorter) by {
            assert forall|k: int| 0 <= k < shorter.len() implies s.subrange(
                i,
                i + shorter.len(),
            )[k] == shorter[k] by {
                assert(s[i + k] == s.subrange(i, i + len)[k]);
            }
        }
        lemma_digits_value_decimal(s, i, n / 10);
    } else {
        assert(digits_value(s, i, i) == 0);
    }
}

/// A decimal text in `s` that no digit follows is read as one number, with
/// the value that the text is of.
pub proof fn lemma_number_reads_decimal(s: Seq<char>, i: int, n: nat)
    requires
        stands_at(s, i, decimal(n)),
        i + decimal(n).len() == s.len() || !is_digit(s[i + decimal(n).len()]),
    ensures
        number_end(s, i) == i + decimal(n).len(),
        digits_value(s, i, i + decimal(n).len()) == n,
{
    let len = decimal(n).len() as int;
    lemma_decimal_digits(n);
    lemma_digits_value_decimal(s, i, n);
    assert forall|k: int| i <= k < i + len implies is_digit(#[trigger] s[k]) by {
        assert(s[k] == s.subrange(i, i + len)[k - i]);
    }
    assert(s[i] == s.subrange(i, i + len)[0]);
    lemma_digits_end_run(s, i, i + len);
}


/// Where a text of two parts stands, its parts stand one after the other.
pub proof fn lemma_stands_at_split(s: Seq<char>, i: int, a: Seq<char>, b: Seq<char>)
    requires
        stands_at(s, i, a + b),
    ensures
        stands_at(s, i, a),
        stands_at(s, i + a.len(), b),
{
    let whole = s.subrange(i, i + (a + b).len());
    assert(s.subrange(i, i + a.len()) =~= a) by {
        assert forall|k: int| 0 <= k < a.len() implies s.subrange(i, i + a.len())[k] == a[k] by {
            assert(s[i + k] == whole[k]);
        }
    }
    assert(s.subrange(i + a.len(), i + a.len() + b.len()) =~= b) by {
        assert forall|k: int| 0 <= k < b.len() implies s.subrange(
            i + a.len(),
            i + a.len() + b.len(),
        )[k] == b[k] by {
            assert(s[i + a.len() + k] == whole[a.len() + k]);
        }
    }
}

/// Whether a term can stop at index `end` of `s`: no digit follows, and no
/// `d` with a number after a literal without sign, which would make it the
/// count of dice.
pub open spec fn term_stops_at(s: Seq<char>, term: Term, end: int) -> bool {
    end == s.len() || (!is_digit(s[end]) && (term matches Term::Literal(value) && value >= 0
        ==> !(s[end] == 'd' && number_end(s, end + 1) > end + 1)))
}

/// The text of a term is read back as that term.
pub proof fn lemma_term_reads_back(s: Seq<char>, i: int, term: Term)
    requires
        stands_at(s, i, term_text(term)),
        term_stops_at(s, term, i + term_text(term).len()),
    ensures
        term_at(s, i) == (TermParse::Found { term, end: i + term_text(term).len() }),
{
    match term {
        Term::Dice { count, size } => {
            let head = decimal(count as nat);
            let tail = seq!['d'] + decimal(size as nat);
            assert(term_text(term) =~= head + tail);
            lemma_stands_at_split(s, i, head, tail);
            lemma_stands_at_split(s, i + head.len(), seq!['d'], decimal(size as nat));
            let d = i + head.len();
            assert(s[d] == s.subrange(d, d + 1)[0]);
            assert(s[d] == 'd');
            lemma_number_reads_decimal(s, i, count as nat);
            lemma_number_reads_decimal(s, d + 1, size as nat);
            lemma_decimal_digits(count as nat);
            lemma_decimal_digits(size as nat);
        },
        Term::Literal(value) => {
            if value >= 0 {
                lemma_number_reads_decimal(s, i, value as nat);
                lemma_decimal_digits(value as nat);
            } else {
                let magnitude = (-value) as nat;
                assert(term_text(term) =~= seq!['-'] + decimal(magnitude));
                lemma_stands_at_split(s, i, seq!['-'], decimal(magnitude));
                assert(s[i] == s.subrange(i, i + 1)[0]);
                assert(s[i] == '-');
                lemma_number_reads_decimal(s, i + 1, magnitude);
                lemma_decimal_digits(magnitude);
                assert(digits_end(s, i) == i);
                assert(literal_value(true, magnitude) == value);
            }
        },
    }
}


/// The text of the terms from index `k` on, each after a `+`.
pub open spec fn rest_text(terms: Seq<Term>, k: int) -> Seq<char>
    decreases terms.len() - k,
{
    if k < 0 || k >= terms.len() {
        Seq::<char>::empty()
    } else {
        seq!['+'] + term_text(terms[k]) + rest_text(terms, k + 1)
    }
}

/// The text of an ending: a run of `a` for advantage, of `d` for
/// disadvantage, as long as the magnitude.
pub open spec fn ending_text(advantageousness: int) -> Seq<char> {
    if advantageousness >= 0 {
        Seq::new(advantageousness as nat, |k: int| 'a')
    } else {
        Seq::new((-advantageousness) as nat, |k: int| 'd')
    }
}

/// The text of a roll: its terms with `+` between them, then its ending.
pub open spec fn roll_notation(roll: RollView) -> Seq<char> {
    term_text(roll.terms[0]) + (rest_text(roll.terms, 1) + ending_text(roll.advantageousness))
}

/// A term can stop where the rest of a roll's text begins.
proof fn lemma_term_stops_before_rest(
    s: Seq<char>,
    end: int,
    terms: Seq<Term>,
    k: int,
    advantageousness: int,
    term: Term,
)
    requires
        stands_at(s, end, rest_text(terms, k) + ending_text(advantageousness)),
        end + (rest_text(terms, k) + ending_text(advantageousness)).len() == s.len(),
    ensures
        term_stops_at(s, term, end),
{
    let rest = rest_text(terms, k);
    let tail = ending_text(advantageousness);
    let whole = rest + tail;
    if end < s.len() {
        assert(s[end] == s.subrange(end, end + whole.len())[0]);
        if rest.len() > 0 {
            assert(whole[0] == '+');
        } else {
            assert(whole[0] == tail[0]);
            if end + 1 < s.len() {
                assert(s[end + 1] == s.subrange(end, end + whole.len())[1]);
                assert(whole[1] == tail[1]);
            }
            assert(digits_end(s, end + 1) == end + 1);
        }
    }
}

/// The rest of a roll's text is read back as the rest of its terms.
proof fn lemma_rest_reads_back(
    s: Seq<char>,
    i: int,
    terms: Seq<Term>,
    k: int,
    advantageousness: int,
    acc: Seq<Term>,
)
    requires
        0 <= k <= terms.len(),
        stands_at(s, i, rest_text(terms, k) + ending_text(advantageousness)),
        i + (rest_text(terms, k) + ending_text(advantageousness)).len() == s.len(),
    ensures
        terms_from(s, i, acc) == (ListParse::Found {
            terms: acc + terms.subrange(k, terms.len() as int),
            end: s.len() - ending_text(advantageousness).len(),
        }),
    decreases terms.len() - k,
{
    let rest = rest_text(terms, k);
    let tail = ending_text(advantageousness);
    if k >= terms.len() {
        if tail.len() > 0 {
            assert(s[i] == s.subrange(i, i + (rest + tail).len())[0]);
            assert((rest + tail)[0] == tail[0]);
        }
        assert(acc + terms.subrange(k, terms.len() as int) =~= acc);
    } else {
        let text = term_text(terms[k]);
        let later = rest_text(terms, k + 1);
        assert(rest + tail =~= (seq!['+'] + text) + (later + tail));
        lemma_stands_at_split(s, i, seq!['+'] + text, later + tail);
        lemma_stands_at_split(s, i, seq!['+'], text);
        assert(s[i] == s.subrange(i, i + 1)[0]);
        let end = i + 1 + text.len();
        lemma_term_stops_before_rest(s, end, terms, k + 1, advantageousness, terms[k]);
        lemma_term_reads_back(s, i + 1, terms[k]);
        lemma_rest_reads_back(s, end, terms, k + 1, advantageousness, acc.push(terms[k]));
        assert(acc.push(terms[k]) + terms.subrange(k + 1, terms.len() as int) =~= acc
            + terms.subrange(k, terms.len() as int));
    }
}

/// Every roll is read back from its text: the grammar accepts the terms
/// joined by `+` and followed by their ending, and gives the same terms and
/// advantageousness, but for a lone literal, which it reads as the modifier
/// to one twenty-sided die.
pub proof fn lemma_roll_reads_back(roll: RollView)
    requires
        roll.terms.len() >= 1,
        -i32::MAX <= roll.advantageousness <= i32::MAX,
    ensures
        parse_expression(roll_notation(roll)) == Ok::<RollView, SyntaxError>(
            RollView {
                terms: with_shorthand(roll.terms),
                advantageousness: roll.advantageousness,
            },
        ),
{
    let s = roll_notation(roll);
    let first = term_text(roll.terms[0]);
    let rest = rest_text(roll.terms, 1);
    let tail = ending_text(roll.advantageousness);
    assert(s.subrange(0, s.len() as int) =~= s);
    lemma_stands_at_split(s, 0, first, rest + tail);
    let e0 = first.len() as int;
    lemma_term_stops_before_rest(s, e0, roll.terms, 1, roll.advantageousness, roll.terms[0]);
    lemma_term_reads_back(s, 0, roll.terms[0]);
    lemma_rest_reads_back(s, e0, roll.terms, 1, roll.advantageousness, seq![roll.terms[0]]);
    assert(seq![roll.terms[0]] + roll.terms.subrange(1, roll.terms.len() as int)
        =~= roll.terms);
    let e = s.len() - tail.len();
    lemma_stands_at_split(s, e0, rest, tail);
    assert forall|k: int| e <= k < s.len() implies s[k] == tail[k - e] by {
        assert(s[k] == s.subrange(e, e + tail.len())[k - e]);
    }
    if roll.advantageousness != 0 {
        lemma_ending_magnitude(s, e, tail.len() as int, roll.advantageousness > 0);
    }
}

} // verus!
