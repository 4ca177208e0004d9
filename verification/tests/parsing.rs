use dice_notation::grammar::{join_errors, parse, SyntaxError};
use dice_notation::model::{Roll, Term};

fn parsed(text: &str) -> Roll {
    parse(text).expect("the expression parses")
}

fn failure(text: &str) -> Vec<SyntaxError> {
    parse(text).expect_err("the expression does not parse")
}

#[test]
fn empty_expression_is_one_d20() {
    let roll = parsed("");
    assert_eq!(roll.terms, vec![Term::Dice { count: 1, size: 20 }]);
    assert_eq!(roll.advantageousness, 0);
}

#[test]
fn comment_alone_is_one_d20() {
    let roll = parsed("/for initiative");
    assert_eq!(roll.terms, vec![Term::Dice { count: 1, size: 20 }]);
    assert_eq!(roll.advantageousness, 0);
}

#[test]
fn dice_plus_literal() {
    let roll = parsed("2d6+3");
    assert_eq!(roll.terms, vec![Term::Dice { count: 2, size: 6 }, Term::Literal(3)]);
    assert_eq!(roll.advantageousness, 0);
}

#[test]
fn bare_number_is_modifier_to_d20() {
    let roll = parsed("5");
    assert_eq!(roll.terms, vec![Term::Dice { count: 1, size: 20 }, Term::Literal(5)]);
    assert_eq!(roll.advantageousness, 0);
}

#[test]
fn negative_number_is_modifier_to_d20() {
    let roll = parsed("-5/flavor text");
    assert_eq!(roll.terms, vec![Term::Dice { count: 1, size: 20 }, Term::Literal(-5)]);
    assert_eq!(roll.advantageousness, 0);
}

#[test]
fn omitted_count_is_one() {
    let roll = parsed("d8");
    assert_eq!(roll.terms, vec![Term::Dice { count: 1, size: 8 }]);
}

#[test]
fn advantage_run_stacks() {
    let roll = parsed("d20aa");
    assert_eq!(roll.terms, vec![Term::Dice { count: 1, size: 20 }]);
    assert_eq!(roll.advantageousness, 2);
    assert_eq!(parsed("d20a").advantageousness, 1);
    assert_eq!(parsed("aaa").advantageousness, 3);
}

#[test]
fn disadvantage_run_stacks() {
    let roll = parsed("d20d");
    assert_eq!(roll.terms, vec![Term::Dice { count: 1, size: 20 }]);
    assert_eq!(roll.advantageousness, -1);
    let roll = parsed("dd");
    assert_eq!(roll.terms, vec![Term::Dice { count: 1, size: 20 }]);
    assert_eq!(roll.advantageousness, -2);
}

#[test]
fn number_before_disadvantage_is_a_modifier() {
    let roll = parsed("2d");
    assert_eq!(roll.terms, vec![Term::Dice { count: 1, size: 20 }, Term::Literal(2)]);
    assert_eq!(roll.advantageousness, -1);
    let roll = parsed("3+2d");
    assert_eq!(roll.terms, vec![Term::Literal(3), Term::Literal(2)]);
    assert_eq!(roll.advantageousness, -1);
}

#[test]
fn several_terms_keep_their_order() {
    let roll = parsed("3d4+d6+-2+10a/attack");
    assert_eq!(
        roll.terms,
        vec![
            Term::Dice { count: 3, size: 4 },
            Term::Dice { count: 1, size: 6 },
            Term::Literal(-2),
            Term::Literal(10),
        ]
    );
    assert_eq!(roll.advantageousness, 1);
}

#[test]
fn zero_count_and_zero_size_parse() {
    assert_eq!(parsed("0d6").terms, vec![Term::Dice { count: 0, size: 6 }]);
    assert_eq!(parsed("d0").terms, vec![Term::Dice { count: 1, size: 0 }]);
}

#[test]
fn largest_numbers() {
    assert_eq!(
        parsed("4294967295d4294967295").terms,
        vec![Term::Dice { count: 4294967295, size: 4294967295 }]
    );
    assert_eq!(
        parsed("2147483647").terms,
        vec![Term::Dice { count: 1, size: 20 }, Term::Literal(2147483647)]
    );
    assert_eq!(
        parsed("4294967295").terms,
        vec![Term::Dice { count: 1, size: 20 }, Term::Literal(-1)]
    );
    assert_eq!(
        parsed("-2147483648").terms,
        vec![Term::Dice { count: 1, size: 20 }, Term::Literal(-2147483648)]
    );
    assert_eq!(
        parsed("2147483648").terms,
        vec![Term::Dice { count: 1, size: 20 }, Term::Literal(-2147483648)]
    );
}

#[test]
fn number_too_large_is_an_error() {
    assert_eq!(failure("d4294967296"), vec![SyntaxError::NumberTooLarge { position: 1 }]);
    assert_eq!(failure("99999999999"), vec![SyntaxError::NumberTooLarge { position: 0 }]);
    assert_eq!(failure("1+-4294967296"), vec![SyntaxError::NumberTooLarge { position: 3 }]);
}

#[test]
fn garbage_is_a_syntax_error() {
    assert_eq!(failure("hello"), vec![SyntaxError::Unexpected { position: 0, found: 'h' }]);
}

#[test]
fn trailing_characters_are_a_syntax_error() {
    assert_eq!(failure("2d6x"), vec![SyntaxError::Unexpected { position: 3, found: 'x' }]);
    assert_eq!(failure("d20ad"), vec![SyntaxError::Unexpected { position: 4, found: 'd' }]);
    assert_eq!(failure("1+d"), vec![SyntaxError::Unexpected { position: 1, found: '+' }]);
    assert_eq!(failure("2d6+"), vec![SyntaxError::Unexpected { position: 3, found: '+' }]);
    assert_eq!(failure("05"), vec![SyntaxError::Unexpected { position: 1, found: '5' }]);
    assert_eq!(failure("-"), vec![SyntaxError::Unexpected { position: 0, found: '-' }]);
    assert_eq!(failure("d6 "), vec![SyntaxError::Unexpected { position: 2, found: ' ' }]);
}

#[test]
fn positions_count_characters() {
    assert_eq!(failure("aé"), vec![SyntaxError::Unexpected { position: 1, found: 'é' }]);
    assert_eq!(parsed("d6/é").terms, vec![Term::Dice { count: 1, size: 6 }]);
}

#[test]
fn parsing_twice_gives_the_same_roll() {
    for text in ["", "2d6+3", "d20aa", "-4d", "hello", "d0", "1+"] {
        assert_eq!(parse(text), parse(text));
    }
}

#[test]
fn error_messages() {
    assert_eq!(
        SyntaxError::Unexpected { position: 12, found: 'x' }.message(),
        "found 'x' at position 12, expected a term, '+', 'a', 'd', '/' or the end"
    );
    assert_eq!(
        SyntaxError::NumberTooLarge { position: 0 }.message(),
        "the number at position 0 is too large"
    );
    assert_eq!(
        SyntaxError::RunTooLong { position: 3 }.message(),
        "the run at position 3 is too long"
    );
}

#[test]
fn errors_are_joined_with_semicolons() {
    let errors = vec![
        SyntaxError::NumberTooLarge { position: 0 },
        SyntaxError::RunTooLong { position: 3 },
        SyntaxError::NumberTooLarge { position: 7 },
    ];
    assert_eq!(
        join_errors(&errors),
        "the number at position 0 is too large; the run at position 3 is too long; the number at position 7 is too large"
    );
    assert_eq!(join_errors(&errors[..1].to_vec()), "the number at position 0 is too large");
    assert_eq!(join_errors(&Vec::new()), "error");
}

#[test]
fn written_rolls_read_back() {
    let rolls = vec![
        Roll { terms: vec![Term::Dice { count: 3, size: 4 }, Term::Literal(-2)], advantageousness: 0 },
        Roll { terms: vec![Term::Literal(7), Term::Literal(0), Term::Dice { count: 0, size: 9 }], advantageousness: -3 },
        Roll { terms: vec![Term::Dice { count: 1, size: 20 }], advantageousness: 2 },
        Roll { terms: vec![Term::Literal(4), Term::Literal(5)], advantageousness: -1 },
    ];
    for roll in rolls {
        let terms: Vec<String> = roll
            .terms
            .iter()
            .map(|term| match term {
                Term::Dice { count, size } => format!("{count}d{size}"),
                Term::Literal(value) => format!("{value}"),
            })
            .collect();
        let run = if roll.advantageousness >= 0 { "a" } else { "d" };
        let text = format!(
            "{}{}",
            terms.join("+"),
            run.repeat(roll.advantageousness.unsigned_abs() as usize)
        );
        assert_eq!(parse(&text), Ok(roll.clone()));
        assert_eq!(parse(&format!("{text}/with a comment")), Ok(roll));
    }
}
