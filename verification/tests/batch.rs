use logic_semantic_analyzer::{process_lines, trim_line, LogicError};

#[test]
fn blank_lines_are_skipped() {
    let lines = vec!["".to_string(), "   ".to_string(), "A".to_string()];
    let out = process_lines(&lines).unwrap();
    assert_eq!(
        out,
        vec![
            "Expression: A".to_string(),
            "  Evaluated variable A".to_string(),
            "".to_string(),
        ]
    );
}

#[test]
fn empty_input_produces_no_output() {
    let lines: Vec<String> = Vec::new();
    let out = process_lines(&lines).unwrap();
    assert!(out.is_empty());
}

#[test]
fn each_expression_gets_its_own_block() {
    let lines = vec!["A".to_string(), "NOT B".to_string()];
    let out = process_lines(&lines).unwrap();
    assert_eq!(
        out,
        vec![
            "Expression: A".to_string(),
            "  Evaluated variable A".to_string(),
            "".to_string(),
            "Expression: NOT B".to_string(),
            "  Evaluated variable B".to_string(),
            "  Applied NOT to the preceding result".to_string(),
            "".to_string(),
        ]
    );
}

#[test]
fn lines_are_trimmed_before_evaluation() {
    let lines = vec!["  A AND B\t".to_string()];
    let out = process_lines(&lines).unwrap();
    assert_eq!(out[0], "Expression: A AND B");
    assert_eq!(out.len(), 5);
}

#[test]
fn engine_failure_is_fatal_to_the_batch() {
    let lines = vec!["A".to_string(), "A B".to_string(), "C".to_string()];
    let err = process_lines(&lines).unwrap_err();
    match err {
        LogicError::EvaluationError(msg) => {
            assert_eq!(msg, "Could not evaluate expression: A B");
        }
        LogicError::IoError(_) => panic!("expected an evaluation error"),
    }
}

#[test]
fn trim_removes_surrounding_whitespace_only() {
    assert_eq!(trim_line(" \t A OR B \r\n"), "A OR B");
    assert_eq!(trim_line("A"), "A");
    assert_eq!(trim_line("   "), "");
    assert_eq!(trim_line(""), "");
}

#[test]
fn error_messages_name_their_kind() {
    let e = LogicError::EvaluationError("bad".to_string());
    assert_eq!(e.message(), "Evaluation error: bad");
    let e = LogicError::IoError("gone".to_string());
    assert_eq!(e.message(), "IO error: gone");
}
