use logic_semantic_analyzer::ast::{evaluate_expression, EvalError};
use logic_semantic_analyzer::lexer::{lex, Token};

#[test]
fn test_simple_evaluation() {
    let steps = evaluate_expression("A AND B").unwrap();
    assert!(!steps.is_empty());
}

#[test]
fn single_variable_yields_one_step() {
    let steps = evaluate_expression("A").unwrap();
    assert_eq!(steps, vec!["Evaluated variable A".to_string()]);
}

#[test]
fn and_yields_three_ordered_steps() {
    let steps = evaluate_expression("A AND B").unwrap();
    assert_eq!(
        steps,
        vec![
            "Evaluated variable A".to_string(),
            "Evaluated variable B".to_string(),
            "Combined the two preceding results with AND".to_string(),
        ]
    );
}

#[test]
fn not_yields_two_steps() {
    let steps = evaluate_expression("NOT A").unwrap();
    assert_eq!(
        steps,
        vec![
            "Evaluated variable A".to_string(),
            "Applied NOT to the preceding result".to_string(),
        ]
    );
}

#[test]
fn parenthesized_subexpression_steps_come_first() {
    let steps = evaluate_expression("(A OR B) AND C").unwrap();
    assert_eq!(
        steps,
        vec![
            "Evaluated variable A".to_string(),
            "Evaluated variable B".to_string(),
            "Combined the two preceding results with OR".to_string(),
            "Evaluated variable C".to_string(),
            "Combined the two preceding results with AND".to_string(),
        ]
    );
}

#[test]
fn evaluation_is_deterministic() {
    let first = evaluate_expression("NOT (A IMPLIES B) OR C").unwrap();
    let second = evaluate_expression("NOT (A IMPLIES B) OR C").unwrap();
    assert_eq!(first, second);
}

#[test]
fn last_step_names_root_connective() {
    let steps = evaluate_expression("A IFF B AND C").unwrap();
    assert_eq!(
        steps.last().unwrap(),
        "Combined the two preceding results with IFF"
    );
}

#[test]
fn adjacent_identifiers_are_a_syntax_error() {
    let err = evaluate_expression("A B").unwrap_err();
    assert!(matches!(err, EvalError::Syntax { .. }));
}

#[test]
fn empty_expression_is_a_syntax_error() {
    let err = evaluate_expression("").unwrap_err();
    assert!(matches!(err, EvalError::Syntax { .. }));
}

#[test]
fn unbalanced_parenthesis_is_a_syntax_error() {
    let err = evaluate_expression("(A OR B").unwrap_err();
    assert!(matches!(err, EvalError::Syntax { .. }));
    let err = evaluate_expression("A OR B)").unwrap_err();
    assert!(matches!(err, EvalError::Syntax { .. }));
}

#[test]
fn trailing_connective_is_a_syntax_error() {
    let err = evaluate_expression("A AND").unwrap_err();
    assert!(matches!(err, EvalError::Syntax { .. }));
}

#[test]
fn lone_connective_is_a_syntax_error() {
    let err = evaluate_expression("AND").unwrap_err();
    assert!(matches!(err, EvalError::Syntax { .. }));
}

#[test]
fn unrecognized_character_is_a_lexical_error() {
    let err = evaluate_expression("A & B").unwrap_err();
    assert!(matches!(err, EvalError::Lexical { position: 2 }));
}

#[test]
fn precedence_binds_and_tighter_than_or() {
    // A OR B AND C parses as A OR (B AND C): the AND step precedes the OR step.
    let steps = evaluate_expression("A OR B AND C").unwrap();
    assert_eq!(
        steps,
        vec![
            "Evaluated variable A".to_string(),
            "Evaluated variable B".to_string(),
            "Evaluated variable C".to_string(),
            "Combined the two preceding results with AND".to_string(),
            "Combined the two preceding results with OR".to_string(),
        ]
    );
}

#[test]
fn precedence_binds_or_tighter_than_implies() {
    let steps = evaluate_expression("A IMPLIES B OR C").unwrap();
    assert_eq!(
        steps,
        vec![
            "Evaluated variable A".to_string(),
            "Evaluated variable B".to_string(),
            "Evaluated variable C".to_string(),
            "Combined the two preceding results with OR".to_string(),
            "Combined the two preceding results with IMPLIES".to_string(),
        ]
    );
}

#[test]
fn binary_connectives_are_left_associative() {
    // A AND B AND C parses as (A AND B) AND C.
    let steps = evaluate_expression("A AND B AND C").unwrap();
    assert_eq!(
        steps,
        vec![
            "Evaluated variable A".to_string(),
            "Evaluated variable B".to_string(),
            "Combined the two preceding results with AND".to_string(),
            "Evaluated variable C".to_string(),
            "Combined the two preceding results with AND".to_string(),
        ]
    );
}

#[test]
fn not_is_right_associative_prefix() {
    let steps = evaluate_expression("NOT NOT A").unwrap();
    assert_eq!(
        steps,
        vec![
            "Evaluated variable A".to_string(),
            "Applied NOT to the preceding result".to_string(),
            "Applied NOT to the preceding result".to_string(),
        ]
    );
}

#[test]
fn xor_parses_at_iff_level() {
    let steps = evaluate_expression("A IFF B XOR C").unwrap();
    assert_eq!(
        steps,
        vec![
            "Evaluated variable A".to_string(),
            "Evaluated variable B".to_string(),
            "Combined the two preceding results with IFF".to_string(),
            "Evaluated variable C".to_string(),
            "Combined the two preceding results with XOR".to_string(),
        ]
    );
}

#[test]
fn keywords_are_case_sensitive() {
    // "and" is an ordinary identifier, so this is three adjacent identifiers.
    let err = evaluate_expression("A and B").unwrap_err();
    assert!(matches!(err, EvalError::Syntax { .. }));
}

#[test]
fn identifiers_allow_digits_and_underscores() {
    let steps = evaluate_expression("x1_y AND B2").unwrap();
    assert_eq!(
        steps,
        vec![
            "Evaluated variable x1_y".to_string(),
            "Evaluated variable B2".to_string(),
            "Combined the two preceding results with AND".to_string(),
        ]
    );
}

#[test]
fn lexer_recognizes_grouping_tokens() {
    let toks = lex("(X)").unwrap();
    assert_eq!(toks.len(), 3);
    assert!(matches!(toks[0], Token::LParen));
    assert!(matches!(toks[1], Token::Var(_)));
    assert!(matches!(toks[2], Token::RParen));
}

#[test]
fn lexer_rejects_digit_leading_tokens() {
    // A token may not start with a digit, so the digit is an unrecognized
    // character where it starts a token.
    let err = evaluate_expression("1A AND B").unwrap_err();
    assert!(matches!(err, EvalError::Lexical { position: 0 }));
}
