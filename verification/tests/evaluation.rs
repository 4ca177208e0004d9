use dice_notation::dice::{
    draw_dice, draw_die, draw_table, draw_term, draw_trial, roll_term, trials_of,
};
use dice_notation::grammar::parse;
use dice_notation::model::{Roll, Term, ValidationError};
use dice_notation::outcome::{
    combine, evaluate_dice, evaluate_literal, evaluate_term, evaluate_trial, Maximality,
    TrialOutcome,
};
use dice_notation::selection::{evaluate, render, select, validate, RollResult};
use dice_notation::text::{chars_of, push_decimal, push_signed_decimal};
use dice_notation::{message_body, roll, roll_message, roll_with};

fn outcome(sum: i128) -> TrialOutcome {
    TrialOutcome {
        sum,
        rendered: sum.to_string(),
        maximality: Maximality { max: false, min: false },
        die_count: 1,
    }
}

fn text_of(expr: &str, table: Vec<Vec<Vec<u32>>>) -> Result<String, String> {
    let parsed = parse(expr).expect("the expression parses");
    roll_with(&parsed, &table)
}

#[test]
fn decimal_text() {
    let mut out = String::from("n=");
    push_decimal(&mut out, 0);
    push_decimal(&mut out, 7);
    push_decimal(&mut out, 1203);
    assert_eq!(out, "n=071203");
    let mut out = String::new();
    push_decimal(&mut out, u128::MAX);
    assert_eq!(out, "340282366920938463463374607431768211455");
    let mut out = String::new();
    push_signed_decimal(&mut out, -45);
    push_signed_decimal(&mut out, 0);
    push_signed_decimal(&mut out, i128::MIN);
    assert_eq!(out, "-450-170141183460469231731687303715884105728");
}

#[test]
fn characters_of_a_text() {
    assert_eq!(chars_of("d6é"), vec!['d', '6', 'é']);
    assert_eq!(chars_of(""), Vec::<char>::new());
}

#[test]
fn dice_group_marks_extremes() {
    let o = evaluate_dice(&vec![1, 3, 6], 6);
    assert_eq!(o.sum, 10);
    assert_eq!(o.rendered, "**1** 3 **6**");
    assert_eq!(o.maximality, Maximality { max: false, min: false });
    assert_eq!(o.die_count, 3);
}

#[test]
fn dice_group_all_highest() {
    let o = evaluate_dice(&vec![6, 6], 6);
    assert_eq!(o.sum, 12);
    assert_eq!(o.rendered, "**6** **6**");
    assert_eq!(o.maximality, Maximality { max: true, min: false });
}

#[test]
fn dice_group_all_ones() {
    let o = evaluate_dice(&vec![1, 1], 6);
    assert_eq!(o.sum, 2);
    assert_eq!(o.rendered, "**1** **1**");
    assert_eq!(o.maximality, Maximality { max: false, min: true });
}

#[test]
fn one_sided_die_is_not_marked() {
    let o = evaluate_dice(&vec![1, 1], 1);
    assert_eq!(o.rendered, "1 1");
    assert_eq!(o.maximality, Maximality { max: true, min: true });
}

#[test]
fn empty_dice_group() {
    let o = evaluate_dice(&vec![], 6);
    assert_eq!(o.sum, 0);
    assert_eq!(o.rendered, "");
    assert_eq!(o.maximality, Maximality { max: true, min: true });
    assert_eq!(o.die_count, 0);
}

#[test]
fn literal_counts_as_one_die() {
    let o = evaluate_literal(-7);
    assert_eq!(o.sum, -7);
    assert_eq!(o.rendered, "-7");
    assert_eq!(o.maximality, Maximality { max: true, min: true });
    assert_eq!(o.die_count, 1);
    assert_eq!(evaluate_term(Term::Literal(3), &vec![]), evaluate_literal(3));
    assert_eq!(
        evaluate_term(Term::Dice { count: 2, size: 8 }, &vec![8, 2]),
        evaluate_dice(&vec![8, 2], 8)
    );
}

#[test]
fn combine_adds_and_joins() {
    let a = evaluate_dice(&vec![6, 6], 6);
    let b = evaluate_literal(3);
    let c = combine(a, &b);
    assert_eq!(c.sum, 15);
    assert_eq!(c.rendered, "**6** **6** + 3");
    assert_eq!(c.maximality, Maximality { max: true, min: false });
    assert_eq!(c.die_count, 3);
}

#[test]
fn trial_sum_is_sum_of_term_sums() {
    let terms = vec![Term::Dice { count: 2, size: 6 }, Term::Literal(3), Term::Dice { count: 1, size: 4 }];
    let draws = vec![vec![2, 5], vec![], vec![4]];
    let trial = evaluate_trial(&terms, &draws);
    let mut sum = 0;
    for (term, row) in terms.iter().zip(draws.iter()) {
        sum += evaluate_term(*term, row).sum;
    }
    assert_eq!(trial.sum, sum);
    assert_eq!(trial.sum, 14);
    assert_eq!(trial.rendered, "2 5 + 3 + **4**");
    assert_eq!(trial.die_count, 4);
    assert_eq!(trial.maximality, Maximality { max: false, min: false });
}

#[test]
fn empty_group_adds_no_separator() {
    assert_eq!(text_of("0d6+3", vec![vec![vec![], vec![]]]), Ok("3".to_string()));
    assert_eq!(text_of("0d6", vec![vec![vec![]]]), Ok("".to_string()));
}

#[test]
fn select_takes_first_highest() {
    let outcomes = vec![outcome(3), outcome(9), outcome(9), outcome(1)];
    assert_eq!(select(&outcomes, 3), 1);
    assert_eq!(select(&outcomes, 0), 1);
}

#[test]
fn select_takes_first_lowest_under_disadvantage() {
    let outcomes = vec![outcome(3), outcome(1), outcome(9), outcome(1)];
    assert_eq!(select(&outcomes, -3), 1);
    let outcomes = vec![outcome(4), outcome(4)];
    assert_eq!(select(&outcomes, -1), 0);
    assert_eq!(select(&outcomes, 1), 0);
}

#[test]
fn render_strikes_all_but_selected() {
    let result = RollResult { outcomes: vec![outcome(5), outcome(17), outcome(17)], selected: 1 };
    assert_eq!(render(&result), "~~5~~ 17 ~~17~~");
}

#[test]
fn two_d6_plus_three() {
    assert_eq!(text_of("2d6+3", vec![vec![vec![3, 6], vec![]]]), Ok("3 **6** + 3 = 12".to_string()));
    assert_eq!(
        text_of("2d6+3", vec![vec![vec![1, 1], vec![]]]),
        Ok("**1** **1** + 3 = **5**".to_string())
    );
    assert_eq!(
        text_of("2d6+3", vec![vec![vec![6, 6], vec![]]]),
        Ok("**6** **6** + 3 = **15**".to_string())
    );
}

#[test]
fn two_d6_plus_three_rolled() {
    for _ in 0..200 {
        let text = roll("2d6+3").expect("the roll succeeds");
        let plain = text.replace("**", "");
        let (dice, rest) = plain.split_once(" + 3 = ").expect("dice, literal and sum");
        let values: Vec<i64> = dice.split(' ').map(|v| v.parse().unwrap()).collect();
        assert_eq!(values.len(), 2);
        assert!(values.iter().all(|v| (1..=6).contains(v)));
        assert_eq!(rest.parse::<i64>().unwrap(), values[0] + values[1] + 3);
        for v in &values {
            let marked = text.contains(&format!("**{v}**"));
            if *v == 1 || *v == 6 {
                assert!(marked);
            }
        }
    }
}

#[test]
fn shorthand_after_marker() {
    let body = message_body("r5").expect("the marker is there");
    assert_eq!(body, "5");
    assert_eq!(text_of(body, vec![vec![vec![7], vec![]]]), Ok("7 + 5 = 12".to_string()));
    assert_eq!(text_of(body, vec![vec![vec![20], vec![]]]), Ok("**20** + 5 = **25**".to_string()));
    assert_eq!(text_of("-5", vec![vec![vec![1], vec![]]]), Ok("**1** + -5 = **-4**".to_string()));
    for _ in 0..50 {
        let text = roll_message("r5").expect("the roll succeeds");
        let plain = text.replace("**", "");
        let (die, sum) = plain.split_once(" + 5 = ").expect("die, literal and sum");
        let die: i64 = die.parse().unwrap();
        assert!((1..=20).contains(&die));
        assert_eq!(sum.parse::<i64>().unwrap(), die + 5);
    }
}

#[test]
fn advantage_keeps_best_of_three() {
    assert_eq!(
        text_of("d20aa", vec![vec![vec![5]], vec![vec![17]], vec![vec![17]]]),
        Ok("~~5~~ 17 ~~17~~".to_string())
    );
    for _ in 0..100 {
        let text = roll("d20aa").expect("the roll succeeds");
        let trials: Vec<&str> = text.split(' ').collect();
        assert_eq!(trials.len(), 3);
        let kept: Vec<usize> = (0..3).filter(|i| !trials[*i].starts_with("~~")).collect();
        assert_eq!(kept.len(), 1);
        let sums: Vec<i64> = trials
            .iter()
            .map(|t| t.replace("~~", "").replace("**", "").parse().unwrap())
            .collect();
        let best = *sums.iter().max().unwrap();
        assert_eq!(sums[kept[0]], best);
        assert_eq!(sums.iter().position(|s| *s == best), Some(kept[0]));
    }
}

#[test]
fn disadvantage_keeps_worst() {
    assert_eq!(text_of("d20d", vec![vec![vec![10]], vec![vec![3]]]), Ok("~~10~~ 3".to_string()));
    assert_eq!(
        text_of("2d4dd", vec![vec![vec![4, 4]], vec![vec![1, 2]], vec![vec![2, 1]]]),
        Ok("~~**4** **4** = **8**~~ **1** 2 = 3 ~~2 **1** = 3~~".to_string())
    );
}

#[test]
fn zero_size_is_a_validation_error() {
    assert_eq!(roll("d0"), Err("cannot roll dice of size 0".to_string()));
    assert_eq!(roll("0d0"), Err("cannot roll dice of size 0".to_string()));
    assert_eq!(roll("2d6+3d0a"), Err("cannot roll dice of size 0".to_string()));
    let parsed = parse("d0").unwrap();
    assert_eq!(validate(&parsed), Err(ValidationError::ZeroSize));
    assert_eq!(evaluate(&parsed, &vec![]), Err(ValidationError::ZeroSize));
    assert_eq!(validate(&parse("2d6+3").unwrap()), Ok(()));
}

#[test]
fn garbage_is_dropped_or_reported() {
    assert_eq!(roll_message("hello"), None);
    assert_eq!(message_body("hello"), None);
    assert_eq!(message_body(""), None);
    assert_eq!(
        roll("hello"),
        Err("found 'h' at position 0, expected a term, '+', 'a', 'd', '/' or the end".to_string())
    );
    assert_eq!(roll_message("rhello"), None);
    assert_eq!(roll_message("rd0"), None);
}

#[test]
fn marker_is_case_insensitive() {
    assert_eq!(message_body("R2d6"), Some("2d6"));
    assert_eq!(message_body("r"), Some(""));
    assert_eq!(message_body("ré"), Some("é"));
    assert!(roll_message("R").is_some());
    assert!(roll_message("r2d6+1a/sneak").is_some());
}

#[test]
fn empty_expression_rolls_one_d20() {
    for _ in 0..50 {
        let text = roll("").expect("the roll succeeds");
        let value: i64 = text.replace("**", "").parse().unwrap();
        assert!((1..=20).contains(&value));
        assert_eq!(text.starts_with("**"), value == 1 || value == 20);
    }
}

#[test]
fn drawn_values_lie_within_the_die() {
    for size in [1u32, 2, 6, 20, 100] {
        let draws = draw_dice(500, size);
        assert_eq!(draws.len(), 500);
        assert!(draws.iter().all(|v| 1 <= *v && *v <= size));
    }
    let draws = draw_dice(400, 6);
    assert!(draws.iter().any(|v| *v != 6));
    assert!(draws.iter().any(|v| *v != 1));
    assert_eq!(draw_dice(0, 6), Vec::<u32>::new());
    assert_eq!(draw_die(1), 1);
    let throws: Vec<u32> = (0..400).map(|_| draw_die(20)).collect();
    assert!(throws.iter().all(|v| 1 <= *v && *v <= 20));
    assert!(throws.iter().any(|v| *v != 20));
    assert!(throws.iter().any(|v| *v != throws[0]));
}

#[test]
fn drawn_tables_fit_the_roll() {
    assert_eq!(draw_term(Term::Literal(4)), Vec::<u32>::new());
    assert_eq!(draw_term(Term::Dice { count: 3, size: 1 }), vec![1, 1, 1]);
    let terms = vec![Term::Dice { count: 2, size: 6 }, Term::Literal(3)];
    let draws = draw_trial(&terms);
    assert_eq!(draws.len(), 2);
    assert_eq!(draws[0].len(), 2);
    assert_eq!(draws[1].len(), 0);
    let table = draw_table(&Roll { terms, advantageousness: -2 });
    assert_eq!(table.len(), 3);
    assert!(table.iter().all(|t| t.len() == 2 && t[0].len() == 2 && t[1].is_empty()));
    assert_eq!(trials_of(0), 1);
    assert_eq!(trials_of(4), 5);
    assert_eq!(trials_of(-4), 5);
}

#[test]
fn evaluate_gives_one_outcome_per_trial() {
    let parsed = parse("d20+2aaa").unwrap();
    let table = vec![
        vec![vec![4], vec![]],
        vec![vec![20], vec![]],
        vec![vec![1], vec![]],
        vec![vec![20], vec![]],
    ];
    let result = evaluate(&parsed, &table).unwrap();
    assert_eq!(result.outcomes.len(), 4);
    assert_eq!(result.selected, 1);
    assert_eq!(result.outcomes[1].sum, 22);
    assert_eq!(
        render(&result),
        "~~4 + 2 = 6~~ **20** + 2 = **22** ~~**1** + 2 = **3**~~ ~~**20** + 2 = **22**~~"
    );
}

#[test]
fn term_rolled_on_its_own() {
    assert_eq!(roll_term(Term::Dice { count: 3, size: 0 }), Err(ValidationError::ZeroSize));
    assert_eq!(roll_term(Term::Dice { count: 0, size: 0 }), Err(ValidationError::ZeroSize));
    assert_eq!(roll_term(Term::Literal(-2)), Ok(evaluate_literal(-2)));
    assert_eq!(roll_term(Term::Dice { count: 2, size: 1 }), Ok(evaluate_dice(&vec![1, 1], 1)));
    for _ in 0..100 {
        let outcome = roll_term(Term::Dice { count: 4, size: 6 }).unwrap();
        assert_eq!(outcome.die_count, 4);
        assert!(4 <= outcome.sum && outcome.sum <= 24);
        assert_eq!(outcome.maximality.max, outcome.sum == 24);
        assert_eq!(outcome.maximality.min, outcome.sum == 4);
    }
}
